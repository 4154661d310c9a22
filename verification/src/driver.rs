//! The driver proper: bracketed register transactions, device
//! initialization, and the pressure read, each specified by the exact trace
//! of bus events it causes and by what it returns for every device reply.

use vstd::prelude::*;

use crate::bus::BusEvent;
use crate::bus::Lps25hbBus;
use crate::bus::bytes_only_while_selected;
use crate::bus::is_transaction;
use crate::bus::lemma_well_bracketed_concat;
use crate::bus::lemma_well_bracketed_cs;
use crate::bus::selected_after;
use crate::bus::well_bracketed;
use crate::protocol::CTRL_REG1;
use crate::protocol::LPS25HB_DEVICE_CODE;
use crate::protocol::WAKE_UP;
use crate::protocol::WHO_AM_I;
use crate::protocol::decode_pressure_reply;
use crate::protocol::decode_raw_spec;
use crate::protocol::is_expected_device;
use crate::protocol::pressure_request_frame;
use crate::protocol::pressure_request_spec;
use crate::protocol::read_request;

verus! {

/// The byte exchanges of one full-duplex transfer: byte `i` of `sent` goes
/// out while byte `i` of `replies` comes back.
pub open spec fn exchange_events(sent: Seq<u8>, replies: Seq<u8>) -> Seq<BusEvent> {
    Seq::new(sent.len(), |i: int| BusEvent::Byte { sent: sent[i], received: replies[i] })
}

/// The trace of one bracketed transaction: assert chip-select, exchange
/// `sent` against `replies`, deassert.
pub open spec fn transaction_events(sent: Seq<u8>, replies: Seq<u8>) -> Seq<BusEvent> {
    seq![BusEvent::Select] + exchange_events(sent, replies) + seq![BusEvent::Deselect]
}

/// The trace of the whole initialization sequence, given the four bytes the
/// device answers with: one transaction that reads the identification
/// register, then one that writes the wake-up value to the control register.
pub open spec fn init_events(replies: Seq<u8>) -> Seq<BusEvent>
    recommends
        replies.len() >= 4,
{
    transaction_events(seq![WHO_AM_I | 0x80, 0u8], replies.take(2)) + transaction_events(
        seq![CTRL_REG1, WAKE_UP],
        replies.subrange(2, 4),
    )
}

/// The trace of one pressure read, given the four bytes the device answers
/// with: a single transaction exchanging the 4-byte request frame.
pub open spec fn read_events(replies: Seq<u8>) -> Seq<BusEvent>
    recommends
        replies.len() >= 4,
{
    transaction_events(pressure_request_spec(), replies.take(4))
}

/// The readings a poll loop of `n` rounds decodes, given the bytes the
/// device answers with: each round consumes four reply bytes and decodes the
/// middle three.
pub open spec fn poll_readings(replies: Seq<u8>, n: nat) -> Seq<u32>
    decreases n,
{
    if n == 0 {
        Seq::<u32>::empty()
    } else {
        seq![decode_raw_spec(replies[1], replies[2], replies[3])] + poll_readings(
            replies.skip(4),
            (n - 1) as nat,
        )
    }
}

/// The trace a poll loop of `n` rounds causes: one pressure-read transaction
/// per round.
pub open spec fn poll_events(replies: Seq<u8>, n: nat) -> Seq<BusEvent>
    decreases n,
{
    if n == 0 {
        Seq::<BusEvent>::empty()
    } else {
        read_events(replies) + poll_events(replies.skip(4), (n - 1) as nat)
    }
}

/// Unfolds one poll round from the back: round `i + 1` appends the reading
/// and the transaction decoded from reply bytes `4 * i` onward.
proof fn lemma_poll_step(replies: Seq<u8>, i: nat)
    requires
        replies.len() >= 4 * (i + 1),
    ensures
        poll_readings(replies, i + 1) == poll_readings(replies, i).push(
            decode_raw_spec(
                replies.skip(4 * i as int)[1],
                replies.skip(4 * i as int)[2],
                replies.skip(4 * i as int)[3],
            ),
        ),
        poll_events(replies, i + 1) == poll_events(replies, i) + read_events(
            replies.skip(4 * i as int),
        ),
    decreases i,
{
    if i == 0 {
        assert(replies.skip(0) =~= replies);
        assert(poll_readings(replies.skip(4), 0) =~= Seq::<u32>::empty());
        assert(poll_events(replies.skip(4), 0) =~= Seq::<BusEvent>::empty());
        assert(poll_readings(replies, 1) =~= poll_readings(replies, 0).push(
            decode_raw_spec(replies[1], replies[2], replies[3]),
        ));
        assert(poll_events(replies, 1) =~= poll_events(replies, 0) + read_events(replies));
    } else {
        lemma_poll_step(replies.skip(4), (i - 1) as nat);
        assert(replies.skip(4).skip(4 * (i - 1) as int) =~= replies.skip(4 * i as int));
        assert(poll_readings(replies, i + 1) =~= poll_readings(replies, i).push(
            decode_raw_spec(
                replies.skip(4 * i as int)[1],
                replies.skip(4 * i as int)[2],
                replies.skip(4 * i as int)[3],
            ),
        ));
        assert(poll_events(replies, i + 1) =~= poll_events(replies, i) + read_events(
            replies.skip(4 * i as int),
        ));
    }
}

/// Every transfer the driver frames is one complete bracketed transaction.
pub proof fn lemma_transaction_events_bracketed(sent: Seq<u8>, replies: Seq<u8>)
    ensures
        is_transaction(transaction_events(sent, replies)),
        well_bracketed(transaction_events(sent, replies)),
{
    let t = transaction_events(sent, replies);
    assert(t.len() == sent.len() + 2);
    assert(t.first() == BusEvent::Select);
    assert(t.last() == BusEvent::Deselect);
    assert(t.take(t.len() as int) =~= t);
    assert(t.skip(t.len() as int) =~= Seq::<BusEvent>::empty());
    assert(well_bracketed(t.skip(t.len() as int)));
    assert(is_transaction(t.take(t.len() as int)));
}

/// Initialization issues the control-register write for every possible
/// device answer: the wake-up bytes stand in the trace whatever the
/// identification reply was.
pub proof fn lemma_init_always_wakes(replies: Seq<u8>)
    ensures
        init_events(replies).len() == 8,
        init_events(replies)[5] matches BusEvent::Byte { sent, .. } && sent == CTRL_REG1,
        init_events(replies)[6] matches BusEvent::Byte { sent, .. } && sent == WAKE_UP,
{
    let t1 = transaction_events(seq![WHO_AM_I | 0x80, 0u8], replies.take(2));
    let t2 = transaction_events(seq![CTRL_REG1, WAKE_UP], replies.subrange(2, 4));
    assert(t1.len() == 4);
    assert(init_events(replies)[5] == t2[1]);
    assert(init_events(replies)[6] == t2[2]);
}

/// The initialization sequence keeps the chip-select discipline: its trace is
/// two complete bracketed transactions, every byte is exchanged while the
/// device is selected, and the line ends deasserted.
pub proof fn lemma_init_events_bracketed(replies: Seq<u8>)
    ensures
        well_bracketed(init_events(replies)),
        bytes_only_while_selected(init_events(replies), false),
        !selected_after(init_events(replies), false),
{
    lemma_transaction_events_bracketed(seq![WHO_AM_I | 0x80, 0u8], replies.take(2));
    lemma_transaction_events_bracketed(seq![CTRL_REG1, WAKE_UP], replies.subrange(2, 4));
    lemma_well_bracketed_concat(
        transaction_events(seq![WHO_AM_I | 0x80, 0u8], replies.take(2)),
        transaction_events(seq![CTRL_REG1, WAKE_UP], replies.subrange(2, 4)),
    );
    lemma_well_bracketed_cs(init_events(replies), false);
}

/// A pressure read keeps the chip-select discipline: its trace is one
/// complete bracketed transaction, every byte is exchanged while the device
/// is selected, and the line ends deasserted.
pub proof fn lemma_read_events_bracketed(replies: Seq<u8>)
    ensures
        well_bracketed(read_events(replies)),
        bytes_only_while_selected(read_events(replies), false),
        !selected_after(read_events(replies), false),
{
    lemma_transaction_events_bracketed(pressure_request_spec(), replies.take(4));
    lemma_well_bracketed_cs(read_events(replies), false);
}

/// Any number of poll rounds keeps the chip-select discipline.
pub proof fn lemma_poll_events_bracketed(replies: Seq<u8>, n: nat)
    ensures
        well_bracketed(poll_events(replies, n)),
        bytes_only_while_selected(poll_events(replies, n), false),
        n > 0 ==> !selected_after(poll_events(replies, n), false),
    decreases n,
{
    if n > 0 {
        lemma_read_events_bracketed(replies);
        lemma_poll_events_bracketed(replies.skip(4), (n - 1) as nat);
        lemma_well_bracketed_concat(
            read_events(replies),
            poll_events(replies.skip(4), (n - 1) as nat),
        );
    }
    lemma_well_bracketed_cs(poll_events(replies, n), false);
}

/// The whole session — initialization followed by any number of poll rounds —
/// keeps the chip-select discipline: every byte is exchanged while the device
/// is selected, and the line is deasserted between transactions and at the
/// end.
pub proof fn lemma_session_events_bracketed(replies: Seq<u8>, n: nat)
    ensures
        well_bracketed(init_events(replies) + poll_events(replies.skip(4), n)),
        bytes_only_while_selected(init_events(replies) + poll_events(replies.skip(4), n), false),
        !selected_after(init_events(replies) + poll_events(replies.skip(4), n), false),
{
    lemma_init_events_bracketed(replies);
    lemma_poll_events_bracketed(replies.skip(4), n);
    lemma_well_bracketed_concat(init_events(replies), poll_events(replies.skip(4), n));
    assert(init_events(replies).len() == 8);
    lemma_well_bracketed_cs(init_events(replies) + poll_events(replies.skip(4), n), false);
}

/// Asserts chip-select: the device listens until it is released.
pub fn lps25hb_select<B: Lps25hbBus>(cs: &mut B)
    requires
        old(cs).inv(),
        !old(cs).selected(),
    ensures
        final(cs).inv(),
        final(cs).selected(),
        final(cs).events() == old(cs).events().push(BusEvent::Select),
        final(cs).replies() == old(cs).replies(),
{
    cs.select();
}

/// Deasserts chip-select: the device is released.
pub fn lps25hb_deselect<B: Lps25hbBus>(cs: &mut B)
    requires
        old(cs).inv(),
        old(cs).selected(),
    ensures
        final(cs).inv(),
        !final(cs).selected(),
        final(cs).events() == old(cs).events().push(BusEvent::Deselect),
        final(cs).replies() == old(cs).replies(),
{
    cs.deselect();
}

/// Exchanges one byte within a transaction the caller has bracketed.
pub fn lps25hb_send<B: Lps25hbBus>(spi: &mut B, data: u8) -> (received: u8)
    requires
        old(spi).inv(),
        old(spi).selected(),
        old(spi).replies().len() >= 1,
    ensures
        final(spi).inv(),
        final(spi).selected(),
        received == old(spi).replies()[0],
        final(spi).replies() == old(spi).replies().skip(1),
        final(spi).events() == old(spi).events().push(BusEvent::Byte { sent: data, received }),
{
    spi.exchange(data)
}

/// Exchanges a whole buffer in place within a transaction the caller has
/// bracketed: each byte sent is overwritten by the byte received with it.
pub fn lps25hb_send_buf<B: Lps25hbBus>(spi: &mut B, data: &mut Vec<u8>)
    requires
        old(spi).inv(),
        old(spi).selected(),
        old(spi).replies().len() >= old(data)@.len(),
    ensures
        final(spi).inv(),
        final(spi).selected(),
        final(data)@ == old(spi).replies().take(old(data)@.len() as int),
        final(spi).replies() == old(spi).replies().skip(old(data)@.len() as int),
        final(spi).events() == old(spi).events() + exchange_events(
            old(data)@,
            old(spi).replies(),
        ),
{
    let n = data.len();
    let mut i: usize = 0;
    proof {
        assert(data@.take(0) =~= old(spi).replies().take(0));
        assert(spi.events() =~= old(spi).events() + exchange_events(
            old(data)@.take(0),
            old(spi).replies(),
        ));
        assert(spi.replies() =~= old(spi).replies().skip(0));
    }
    while i < n
        invariant
            n == old(data)@.len(),
            i <= n,
            spi.inv(),
            spi.selected(),
            data@.len() == n,
            data@.skip(i as int) == old(data)@.skip(i as int),
            data@.take(i as int) == old(spi).replies().take(i as int),
            spi.replies() == old(spi).replies().skip(i as int),
            spi.events() == old(spi).events() + exchange_events(
                old(data)@.take(i as int),
                old(spi).replies(),
            ),
            old(spi).replies().len() >= n,
        decreases n - i,
    {
        let ghost pre_data = data@;
        let ghost pre_replies = spi.replies();
        let b = data[i];
        proof {
            assert(pre_data.skip(i as int)[0] == old(data)@.skip(i as int)[0]);
            assert(b == old(data)@[i as int]);
            assert(pre_replies[0] == old(spi).replies()[i as int]);
        }
        let r = spi.exchange(b);
        data.set(i, r);
        proof {
            assert(data@.take(i + 1) =~= old(spi).replies().take(i + 1));
            assert forall|j: int| 0 <= j < data@.skip(i + 1).len() implies #[trigger] (data@.skip(
                i + 1,
            )[j]) == old(data)@.skip(i + 1)[j] by {
                assert(pre_data.skip(i as int)[j + 1] == old(data)@.skip(i as int)[j + 1]);
            }
            assert(data@.skip(i + 1) =~= old(data)@.skip(i + 1));
            assert(spi.replies() =~= old(spi).replies().skip(i + 1));
            assert(spi.events() =~= old(spi).events() + exchange_events(
                old(data)@.take(i + 1),
                old(spi).replies(),
            ));
        }
        i = i + 1;
    }
    proof {
        assert(old(data)@.take(n as int) =~= old(data)@);
        assert(data@ =~= old(spi).replies().take(n as int));
    }
}

/// Runs the initialization sequence: reads the identification register, then
/// unconditionally writes the wake-up configuration to control register 1.
/// Returns whether the identification reply was the expected device code.
pub fn lps25hb_init<B: Lps25hbBus>(spi: &mut B) -> (ok: bool)
    requires
        old(spi).inv(),
        !old(spi).selected(),
        old(spi).replies().len() >= 4,
    ensures
        final(spi).inv(),
        !final(spi).selected(),
        ok == (old(spi).replies()[1] == LPS25HB_DEVICE_CODE),
        final(spi).replies() == old(spi).replies().skip(4),
        final(spi).events() == old(spi).events() + init_events(old(spi).replies()),
{
    lps25hb_select(spi);
    lps25hb_send(spi, read_request(WHO_AM_I));
    let res = lps25hb_send(spi, 0u8);
    lps25hb_deselect(spi);

    lps25hb_select(spi);
    lps25hb_send(spi, CTRL_REG1);
    lps25hb_send(spi, WAKE_UP);
    lps25hb_deselect(spi);

    proof {
        assert(spi.replies() =~= old(spi).replies().skip(4));
        assert(spi.events() =~= old(spi).events() + init_events(old(spi).replies()));
    }
    is_expected_device(res)
}

/// Performs one bracketed pressure read and decodes the scaled raw reading
/// from the three reply bytes.
pub fn lps25hb_read_pressure<B: Lps25hbBus>(spi: &mut B) -> (raw: u32)
    requires
        old(spi).inv(),
        !old(spi).selected(),
        old(spi).replies().len() >= 4,
    ensures
        final(spi).inv(),
        !final(spi).selected(),
        raw == decode_raw_spec(
            old(spi).replies()[1],
            old(spi).replies()[2],
            old(spi).replies()[3],
        ),
        final(spi).replies() == old(spi).replies().skip(4),
        final(spi).events() == old(spi).events() + read_events(old(spi).replies()),
{
    let mut data = pressure_request_frame();
    lps25hb_select(spi);
    lps25hb_send_buf(spi, &mut data);
    lps25hb_deselect(spi);
    proof {
        assert(spi.events() =~= old(spi).events() + read_events(old(spi).replies()));
    }
    decode_pressure_reply(&data)
}

/// Runs the read loop for `count` rounds: each round performs one bracketed
/// pressure read and decodes the scaled raw reading.
pub fn lps25hb_poll<B: Lps25hbBus>(spi: &mut B, count: usize) -> (readings: Vec<u32>)
    requires
        old(spi).inv(),
        !old(spi).selected(),
        old(spi).replies().len() >= 4 * (count as int),
    ensures
        final(spi).inv(),
        !final(spi).selected(),
        readings@ == poll_readings(old(spi).replies(), count as nat),
        final(spi).replies() == old(spi).replies().skip(4 * (count as int)),
        final(spi).events() == old(spi).events() + poll_events(
            old(spi).replies(),
            count as nat,
        ),
{
    let mut readings: Vec<u32> = Vec::new();
    let mut i: usize = 0;
    proof {
        assert(readings@ =~= poll_readings(old(spi).replies(), 0));
        assert(spi.events() =~= old(spi).events() + poll_events(old(spi).replies(), 0));
        assert(spi.replies() =~= old(spi).replies().skip(0));
    }
    while i < count
        invariant
            i <= count,
            spi.inv(),
            !spi.selected(),
            old(spi).replies().len() >= 4 * (count as int),
            readings@ == poll_readings(old(spi).replies(), i as nat),
            spi.replies() == old(spi).replies().skip(4 * (i as int)),
            spi.events() == old(spi).events() + poll_events(old(spi).replies(), i as nat),
        decreases count - i,
    {
        let ghost pre_replies = spi.replies();
        proof {
            assert(pre_replies.len() == old(spi).replies().len() - 4 * (i as int));
        }
        let raw = lps25hb_read_pressure(spi);
        readings.push(raw);
        proof {
            lemma_poll_step(old(spi).replies(), i as nat);
            assert(spi.replies() =~= old(spi).replies().skip(4 * (i + 1 as int)));
        }
        i = i + 1;
    }
    proof {
        assert(spi.events() =~= old(spi).events() + poll_events(
            old(spi).replies(),
            count as nat,
        ));
    }
    readings
}

} // verus!
