//! An abstract model of the 4-wire bus: the observable events (chip-select
//! edges and byte exchanges), the chip-select discipline every transaction
//! must obey, and the interface the driver requires of a concrete bus.

use vstd::prelude::*;

verus! {

/// One observable action on the bus, as seen at the device's pins.
#[derive(Clone, Copy, PartialEq, Eq, Structural, Debug)]
pub enum BusEvent {
    /// Chip-select driven low: the device is selected.
    Select,
    /// Chip-select driven high: the device is released.
    Deselect,
    /// One full-duplex exchange: `sent` clocked out while `received` is
    /// clocked in.
    Byte { sent: u8, received: u8 },
}

/// Whether chip-select is asserted after `events` have happened, starting
/// from a line state `from` (`true` = asserted, i.e. low).
pub open spec fn selected_after(events: Seq<BusEvent>, from: bool) -> bool
    decreases events.len(),
{
    if events.len() == 0 {
        from
    } else {
        match events.last() {
            BusEvent::Select => true,
            BusEvent::Deselect => false,
            BusEvent::Byte { .. } => selected_after(events.drop_last(), from),
        }
    }
}

/// The heart of the chip-select discipline: starting from line state `from`,
/// every byte in the trace is exchanged while the device is selected.
pub open spec fn bytes_only_while_selected(events: Seq<BusEvent>, from: bool) -> bool {
    forall|i: int|
        0 <= i < events.len() && events[i] is Byte ==> selected_after(
            #[trigger] events.take(i),
            from,
        )
}

/// One complete bracketed transaction: assert chip-select, exchange only
/// bytes, deassert.
pub open spec fn is_transaction(events: Seq<BusEvent>) -> bool {
    &&& events.len() >= 2
    &&& events.first() == BusEvent::Select
    &&& events.last() == BusEvent::Deselect
    &&& forall|i: int| 0 < i < events.len() - 1 ==> events[i] is Byte
}

/// A trace made only of complete bracketed transactions, so chip-select is
/// asserted exactly for the duration of each transaction and deasserted at
/// all other times.
pub open spec fn well_bracketed(events: Seq<BusEvent>) -> bool
    decreases events.len(),
{
    events.len() == 0 || exists|n: int|
        {
            &&& 0 < n <= events.len()
            &&& is_transaction(#[trigger] events.take(n))
            &&& well_bracketed(events.skip(n))
        }
}

/// How the chip-select level after a concatenated trace arises: the second
/// part continues from wherever the first part left the line.
pub proof fn lemma_selected_after_concat(a: Seq<BusEvent>, b: Seq<BusEvent>, from: bool)
    ensures
        selected_after(a + b, from) == selected_after(b, selected_after(a, from)),
    decreases b.len(),
{
    if b.len() == 0 {
        assert(a + b =~= a);
    } else {
        assert((a + b).last() == b.last());
        match b.last() {
            BusEvent::Select => {},
            BusEvent::Deselect => {},
            BusEvent::Byte { .. } => {
                assert((a + b).drop_last() =~= a + b.drop_last());
                lemma_selected_after_concat(a, b.drop_last(), from);
            },
        }
    }
}

/// Within a transaction, once the opening `Select` has happened, the device
/// stays selected through every following byte.
proof fn lemma_select_then_bytes(events: Seq<BusEvent>, i: int, from: bool)
    requires
        1 <= i <= events.len(),
        events[0] == BusEvent::Select,
        forall|k: int| 0 < k < i ==> events[k] is Byte,
    ensures
        selected_after(events.take(i), from),
    decreases i,
{
    if i == 1 {
        assert(events.take(1) =~= seq![BusEvent::Select]);
    } else {
        lemma_select_then_bytes(events, i - 1, from);
        assert(events.take(i).last() == events[i - 1]);
        assert(events.take(i).drop_last() =~= events.take(i - 1));
    }
}

/// Two well-bracketed traces in sequence form a well-bracketed trace.
pub proof fn lemma_well_bracketed_concat(a: Seq<BusEvent>, b: Seq<BusEvent>)
    requires
        well_bracketed(a),
        well_bracketed(b),
    ensures
        well_bracketed(a + b),
    decreases a.len(),
{
    if a.len() == 0 {
        assert(a + b =~= b);
    } else {
        let n = choose|n: int|
            0 < n <= a.len() && is_transaction(#[trigger] a.take(n)) && well_bracketed(a.skip(n));
        lemma_well_bracketed_concat(a.skip(n), b);
        assert((a + b).take(n) =~= a.take(n));
        assert((a + b).skip(n) =~= a.skip(n) + b);
        assert(is_transaction((a + b).take(n)) && well_bracketed((a + b).skip(n)));
    }
}

/// The chip-select discipline, proved from the bracket structure: over a
/// well-bracketed trace, every byte is exchanged while the device is
/// selected, and once the trace has begun the line always ends deasserted.
pub proof fn lemma_well_bracketed_cs(events: Seq<BusEvent>, from: bool)
    requires
        well_bracketed(events),
    ensures
        bytes_only_while_selected(events, from),
        events.len() > 0 ==> !selected_after(events, from),
    decreases events.len(),
{
    if events.len() > 0 {
        let n = choose|n: int|
            0 < n <= events.len() && is_transaction(#[trigger] events.take(n))
                && well_bracketed(events.skip(n));
        let t = events.take(n);
        let rest = events.skip(n);
        lemma_well_bracketed_cs(rest, false);
        assert(events =~= t + rest);
        lemma_selected_after_concat(t, rest, from);
        assert(!selected_after(t, from));
        assert forall|i: int|
            0 <= i < events.len() && events[i] is Byte implies selected_after(
            #[trigger] events.take(i),
            from,
        ) by {
            if i < n {
                assert(t[i] == events[i]);
                assert(t[0] == BusEvent::Select);
                lemma_select_then_bytes(t, i, from);
                assert(events.take(i) =~= t.take(i));
            } else {
                assert(rest[i - n] == events[i]);
                assert(selected_after(rest.take(i - n), false));
                assert(events.take(i) =~= t + rest.take(i - n));
                lemma_selected_after_concat(t, rest.take(i - n), from);
            }
        }
    }
}

/// The interface the driver requires of a concrete bus: a chip-select line
/// and a full-duplex byte exchange, with the events it causes on record.
///
/// `replies()` models the bytes the device will drive onto the bus, next
/// first; each exchange consumes one. `inv()` is the abstraction invariant of
/// the concrete bus.
pub trait Lps25hbBus: Sized {
    /// Abstraction invariant of the concrete bus.
    spec fn inv(&self) -> bool;

    /// Whether chip-select is asserted (driven low).
    spec fn selected(&self) -> bool;

    /// Every event caused on the bus so far, oldest first.
    spec fn events(&self) -> Seq<BusEvent>;

    /// The bytes the device will answer with, next first.
    spec fn replies(&self) -> Seq<u8>;

    /// Drives chip-select low, selecting the device for one transaction.
    fn select(&mut self)
        requires
            old(self).inv(),
            !old(self).selected(),
        ensures
            final(self).inv(),
            final(self).selected(),
            final(self).events() == old(self).events().push(BusEvent::Select),
            final(self).replies() == old(self).replies(),
    ;

    /// Drives chip-select high, releasing the device.
    fn deselect(&mut self)
        requires
            old(self).inv(),
            old(self).selected(),
        ensures
            final(self).inv(),
            !final(self).selected(),
            final(self).events() == old(self).events().push(BusEvent::Deselect),
            final(self).replies() == old(self).replies(),
    ;

    /// Blocks until the bus is ready, clocks `data` out, and returns the byte
    /// the device clocked in alongside it.
    fn exchange(&mut self, data: u8) -> (received: u8)
        requires
            old(self).inv(),
            old(self).selected(),
            old(self).replies().len() >= 1,
        ensures
            final(self).inv(),
            final(self).selected(),
            received == old(self).replies().first(),
            final(self).replies() == old(self).replies().skip(1),
            final(self).events() == old(self).events().push(
                BusEvent::Byte { sent: data, received },
            ),
    ;
}

} // verus!
