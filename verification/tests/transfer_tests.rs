use spi_core::sim::{ReadScript, SendScript, SimInstance};
use spi_core::spi::Spi;
use spi_core::trace::Event;

fn full_duplex_u8(
    sends: Vec<SendScript>,
    reads: Vec<ReadScript<u8>>,
) -> Spi<SimInstance<u8>, false> {
    Spi::new(SimInstance::new(sends, reads))
}

fn half_duplex_u8(
    sends: Vec<SendScript>,
    reads: Vec<ReadScript<u8>>,
) -> Spi<SimInstance<u8>, true> {
    Spi::new(SimInstance::new(sends, reads))
}

#[test]
fn transfer_in_place_exchanges_every_word_in_order() {
    let mut spi = full_duplex_u8(
        vec![],
        vec![ReadScript::Word(0x10), ReadScript::Word(0x20), ReadScript::Word(0x30)],
    );
    let mut buf: Vec<u8> = vec![1, 2, 3];
    let r = spi.transfer_in_place(&mut buf);
    assert_eq!(r, Ok(()));
    assert_eq!(buf, vec![0x10, 0x20, 0x30]);
    let sim = spi.release();
    assert_eq!(
        *sim.events(),
        vec![
            Event::Sent(1),
            Event::Received(0x10),
            Event::Sent(2),
            Event::Received(0x20),
            Event::Sent(3),
            Event::Received(0x30),
        ]
    );
}

#[test]
fn transfer_fills_destination_from_exchange() {
    let mut spi = full_duplex_u8(vec![], vec![ReadScript::Word(0xA5), ReadScript::Word(0x5A)]);
    let data: Vec<u8> = vec![5, 6];
    let mut buff: Vec<u8> = vec![0, 0];
    let r = spi.transfer(&mut buff, &data);
    assert_eq!(r, Ok(()));
    assert_eq!(buff, vec![0xA5, 0x5A]);
    assert_eq!(data, vec![5, 6]);
    let sim = spi.release();
    assert_eq!(
        *sim.events(),
        vec![
            Event::Sent(5),
            Event::Received(0xA5),
            Event::Sent(6),
            Event::Received(0x5A),
        ]
    );
}

#[test]
fn transfer_spins_through_stalls_without_side_effects() {
    let mut spi = full_duplex_u8(
        vec![
            SendScript::Stall,
            SendScript::Accept,
            SendScript::Stall,
            SendScript::Stall,
            SendScript::Accept,
        ],
        vec![ReadScript::Stall, ReadScript::Word(9), ReadScript::Word(8)],
    );
    let mut buf: Vec<u8> = vec![1, 2];
    let r = spi.transfer_in_place(&mut buf);
    assert_eq!(r, Ok(()));
    assert_eq!(buf, vec![9, 8]);
    let sim = spi.release();
    assert_eq!(
        *sim.events(),
        vec![
            Event::SendBlocked,
            Event::Sent(1),
            Event::ReadBlocked,
            Event::Received(9),
            Event::SendBlocked,
            Event::SendBlocked,
            Event::Sent(2),
            Event::Received(8),
        ]
    );
}

#[test]
fn read_only_full_duplex_sends_one_zero_filler_per_word() {
    let mut spi = full_duplex_u8(
        vec![],
        vec![ReadScript::Word(0x11), ReadScript::Word(0x22), ReadScript::Word(0x33)],
    );
    let mut buf: Vec<u8> = vec![0xFF, 0xFF, 0xFF];
    let r = spi.read(&mut buf);
    assert_eq!(r, Ok(()));
    assert_eq!(buf, vec![0x11, 0x22, 0x33]);
    let sim = spi.release();
    assert_eq!(
        *sim.events(),
        vec![
            Event::Sent(0),
            Event::Received(0x11),
            Event::Sent(0),
            Event::Received(0x22),
            Event::Sent(0),
            Event::Received(0x33),
        ]
    );
}

#[test]
fn write_only_full_duplex_drains_the_receiver_each_cycle() {
    let mut spi = full_duplex_u8(vec![], vec![ReadScript::Word(0xAA), ReadScript::Word(0xBB)]);
    let words: Vec<u8> = vec![7, 8];
    let r = spi.write(&words);
    assert_eq!(r, Ok(()));
    let sim = spi.release();
    assert_eq!(
        *sim.events(),
        vec![
            Event::Sent(7),
            Event::Received(0xAA),
            Event::Sent(8),
            Event::Received(0xBB),
        ]
    );
}

#[test]
fn half_duplex_write_never_polls_the_receiver() {
    let mut spi = half_duplex_u8(vec![], vec![]);
    let words: Vec<u8> = vec![1, 2, 3];
    let r = spi.write(&words);
    assert_eq!(r, Ok(()));
    let sim = spi.release();
    assert_eq!(
        *sim.events(),
        vec![
            Event::LineOutput,
            Event::Sent(1),
            Event::Sent(2),
            Event::Sent(3),
        ]
    );
}

#[test]
fn half_duplex_read_sends_no_caller_data_and_no_filler() {
    let mut spi = half_duplex_u8(
        vec![],
        vec![ReadScript::Word(4), ReadScript::Word(5), ReadScript::Word(6)],
    );
    let mut buf: Vec<u8> = vec![0, 0, 0];
    let r = spi.read(&mut buf);
    assert_eq!(r, Ok(()));
    assert_eq!(buf, vec![4, 5, 6]);
    let sim = spi.release();
    assert_eq!(
        *sim.events(),
        vec![
            Event::LineInput,
            Event::Received(4),
            Event::Received(5),
            Event::Received(6),
        ]
    );
}

#[test]
fn sixteen_bit_words_transfer_whole() {
    let mut spi: Spi<SimInstance<u16>, false> = Spi::new(SimInstance::new(
        vec![],
        vec![ReadScript::Word(0xBEEF), ReadScript::Word(0x0102)],
    ));
    let mut buf: Vec<u16> = vec![0xCAFE, 0xF00D];
    let r = spi.transfer_in_place(&mut buf);
    assert_eq!(r, Ok(()));
    assert_eq!(buf, vec![0xBEEF, 0x0102]);
    let sim = spi.release();
    assert_eq!(
        *sim.events(),
        vec![
            Event::Sent(0xCAFE),
            Event::Received(0xBEEF),
            Event::Sent(0xF00D),
            Event::Received(0x0102),
        ]
    );
}

#[test]
fn empty_buffers_touch_no_hardware() {
    let mut spi = full_duplex_u8(vec![], vec![]);
    let mut buf: Vec<u8> = vec![];
    assert_eq!(spi.transfer_in_place(&mut buf), Ok(()));
    assert_eq!(spi.write(&vec![]), Ok(()));
    assert_eq!(spi.read(&mut buf), Ok(()));
    let sim = spi.release();
    assert_eq!(*sim.events(), vec![]);
}

#[test]
fn flush_succeeds_without_touching_hardware() {
    let mut spi = full_duplex_u8(vec![], vec![]);
    assert_eq!(spi.flush(), Ok(()));
    let sim = spi.release();
    assert_eq!(*sim.events(), vec![]);
}

#[test]
fn nb_send_reasserts_line_direction_in_half_duplex() {
    let mut spi = half_duplex_u8(vec![SendScript::Accept], vec![]);
    let r = spi.nb_send(0x42);
    assert_eq!(r, Ok(()));
    let sim = spi.release();
    assert_eq!(*sim.events(), vec![Event::LineOutput, Event::Sent(0x42)]);
}

#[test]
fn nb_read_reasserts_line_direction_in_half_duplex() {
    let mut spi = half_duplex_u8(vec![], vec![ReadScript::Word(0x24)]);
    let r = spi.nb_read();
    assert_eq!(r, Ok(0x24));
    let sim = spi.release();
    assert_eq!(*sim.events(), vec![Event::LineInput, Event::Received(0x24)]);
}

#[test]
fn check_send_reports_would_block_without_completing() {
    let mut spi = full_duplex_u8(vec![SendScript::Stall, SendScript::Accept], vec![]);
    let first = spi.check_send(9);
    assert_eq!(first, Err(spi_core::spi::NbError::WouldBlock));
    let second = spi.check_send(9);
    assert_eq!(second, Ok(()));
    let sim = spi.release();
    assert_eq!(*sim.events(), vec![Event::SendBlocked, Event::Sent(9)]);
}

#[test]
fn check_read_reports_would_block_until_a_word_arrives() {
    let mut spi = full_duplex_u8(vec![], vec![ReadScript::Stall, ReadScript::Word(3)]);
    let first = spi.check_read();
    assert_eq!(first, Err(spi_core::spi::NbError::WouldBlock));
    let second = spi.check_read();
    assert_eq!(second, Ok(3));
    let sim = spi.release();
    assert_eq!(*sim.events(), vec![Event::ReadBlocked, Event::Received(3)]);
}

#[test]
fn exhausted_scripts_stay_ready_with_zero_words() {
    let mut spi = full_duplex_u8(vec![], vec![]);
    let mut buf: Vec<u8> = vec![0xAB, 0xCD];
    let r = spi.transfer_in_place(&mut buf);
    assert_eq!(r, Ok(()));
    assert_eq!(buf, vec![0, 0]);
    let sim = spi.release();
    assert_eq!(
        *sim.events(),
        vec![
            Event::Sent(0xAB),
            Event::Received(0),
            Event::Sent(0xCD),
            Event::Received(0),
        ]
    );
}
