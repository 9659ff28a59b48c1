use spi_core::mode::Error;
use spi_core::sim::{ReadScript, SendScript, SimInstance};
use spi_core::spi::{NbError, Operation, Spi};
use spi_core::trace::Event;

fn full_duplex_u8(
    sends: Vec<SendScript>,
    reads: Vec<ReadScript<u8>>,
) -> Spi<SimInstance<u8>, false> {
    Spi::new(SimInstance::new(sends, reads))
}

#[test]
fn mode_fault_on_third_poll_stops_a_five_word_transfer() {
    let mut spi = full_duplex_u8(
        vec![SendScript::Accept, SendScript::Fault],
        vec![ReadScript::Word(0x55)],
    );
    let mut buf: Vec<u8> = vec![1, 2, 3, 4, 5];
    let r = spi.transfer_in_place(&mut buf);
    assert_eq!(r, Err(Error::ModeFault));
    // Exactly three polls happened: the fault on the third poll ended the
    // call, and words three to five were never attempted.
    let sim = spi.release();
    assert_eq!(
        *sim.events(),
        vec![
            Event::Sent(1),
            Event::Received(0x55),
            Event::SendFaulted(Error::ModeFault),
        ]
    );
    assert_eq!(buf, vec![0x55, 2, 3, 4, 5]);
}

#[test]
fn overrun_leaves_buffer_overwritten_only_up_to_the_failing_word() {
    let mut spi = full_duplex_u8(vec![], vec![ReadScript::Word(0x77), ReadScript::Overrun]);
    let mut buf: Vec<u8> = vec![9, 9, 9];
    let r = spi.transfer_in_place(&mut buf);
    assert_eq!(r, Err(Error::Overrun));
    assert_eq!(buf, vec![0x77, 9, 9]);
    let sim = spi.release();
    assert_eq!(
        *sim.events(),
        vec![
            Event::Sent(9),
            Event::Received(0x77),
            Event::Sent(9),
            Event::ReadFaulted(Error::Overrun),
        ]
    );
}

#[test]
fn crc_fault_surfaces_from_a_read() {
    let mut spi = full_duplex_u8(vec![], vec![ReadScript::Crc]);
    let mut buf: Vec<u8> = vec![0];
    let r = spi.read(&mut buf);
    assert_eq!(r, Err(Error::Crc));
    assert_eq!(buf, vec![0]);
    let sim = spi.release();
    assert_eq!(
        *sim.events(),
        vec![Event::Sent(0), Event::ReadFaulted(Error::Crc)]
    );
}

#[test]
fn mode_fault_surfaces_from_nb_send() {
    let mut spi = full_duplex_u8(vec![SendScript::Fault], vec![]);
    let r = spi.nb_send(1);
    assert_eq!(r, Err(NbError::Other(Error::ModeFault)));
}

#[test]
fn overrun_surfaces_from_check_read() {
    let mut spi = full_duplex_u8(vec![], vec![ReadScript::Overrun]);
    let r = spi.check_read();
    assert_eq!(r, Err(NbError::Other(Error::Overrun)));
}

#[test]
fn batch_executes_strictly_in_order() {
    let mut spi = full_duplex_u8(
        vec![],
        vec![ReadScript::Word(0xE0), ReadScript::Word(0xE1)],
    );
    let mut ops: Vec<Operation<u8>> = vec![Operation::Write(vec![1]), Operation::Transfer(vec![2])];
    let r = spi.exec(&mut ops);
    assert_eq!(r, Ok(()));
    assert_eq!(
        ops,
        vec![Operation::Write(vec![1]), Operation::Transfer(vec![0xE1])]
    );
    let sim = spi.release();
    assert_eq!(
        *sim.events(),
        vec![
            Event::Sent(1),
            Event::Received(0xE0),
            Event::Sent(2),
            Event::Received(0xE1),
        ]
    );
}

#[test]
fn batch_failure_mid_transfer_leaves_earlier_write_applied_and_later_ops_unexecuted() {
    let mut spi = full_duplex_u8(
        vec![],
        vec![
            ReadScript::Word(0x01),
            ReadScript::Word(0x02),
            ReadScript::Word(0xD1),
            ReadScript::Overrun,
        ],
    );
    let mut ops: Vec<Operation<u8>> = vec![
        Operation::Write(vec![0xA1, 0xA2]),
        Operation::Transfer(vec![0xB1, 0xB2, 0xB3]),
        Operation::Write(vec![0xC1]),
    ];
    let r = spi.exec(&mut ops);
    assert_eq!(r, Err(Error::Overrun));
    // The write ran to completion, the transfer was applied up to the
    // failing word, and the final write never started.
    assert_eq!(
        ops,
        vec![
            Operation::Write(vec![0xA1, 0xA2]),
            Operation::Transfer(vec![0xD1, 0xB2, 0xB3]),
            Operation::Write(vec![0xC1]),
        ]
    );
    let sim = spi.release();
    assert_eq!(
        *sim.events(),
        vec![
            Event::Sent(0xA1),
            Event::Received(0x01),
            Event::Sent(0xA2),
            Event::Received(0x02),
            Event::Sent(0xB1),
            Event::Received(0xD1),
            Event::Sent(0xB2),
            Event::ReadFaulted(Error::Overrun),
        ]
    );
}

#[test]
fn batch_failure_in_first_write_executes_nothing_else() {
    let mut spi = full_duplex_u8(vec![SendScript::Fault], vec![]);
    let mut ops: Vec<Operation<u8>> =
        vec![Operation::Write(vec![1, 2]), Operation::Transfer(vec![3])];
    let r = spi.exec(&mut ops);
    assert_eq!(r, Err(Error::ModeFault));
    assert_eq!(
        ops,
        vec![Operation::Write(vec![1, 2]), Operation::Transfer(vec![3])]
    );
    let sim = spi.release();
    assert_eq!(*sim.events(), vec![Event::SendFaulted(Error::ModeFault)]);
}

#[test]
fn half_duplex_write_stops_at_a_mode_fault() {
    let mut spi: Spi<SimInstance<u8>, true> = Spi::new(SimInstance::new(
        vec![SendScript::Accept, SendScript::Fault],
        vec![],
    ));
    let words: Vec<u8> = vec![1, 2, 3];
    let r = spi.write(&words);
    assert_eq!(r, Err(Error::ModeFault));
    let sim = spi.release();
    assert_eq!(
        *sim.events(),
        vec![
            Event::LineOutput,
            Event::Sent(1),
            Event::SendFaulted(Error::ModeFault),
        ]
    );
}

#[test]
fn half_duplex_read_stops_at_an_overrun() {
    let mut spi: Spi<SimInstance<u8>, true> = Spi::new(SimInstance::new(
        vec![],
        vec![ReadScript::Word(7), ReadScript::Overrun],
    ));
    let mut buf: Vec<u8> = vec![0, 0, 0];
    let r = spi.read(&mut buf);
    assert_eq!(r, Err(Error::Overrun));
    assert_eq!(buf, vec![7, 0, 0]);
    let sim = spi.release();
    assert_eq!(
        *sim.events(),
        vec![
            Event::LineInput,
            Event::Received(7),
            Event::ReadFaulted(Error::Overrun),
        ]
    );
}
