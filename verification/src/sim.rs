//! A simulated bus: a scripted device for exercising the driver without
//! hardware. It answers each exchange with the next byte of a fixed script
//! and records every event, so a test can replay a whole session and inspect
//! the trace.

use vstd::prelude::*;

use crate::bus::BusEvent;
use crate::bus::Lps25hbBus;

verus! {

/// A bus whose device answers from a fixed script of reply bytes.
pub struct SimBus {
    line_selected: bool,
    script: Vec<u8>,
    cursor: usize,
    log: Vec<BusEvent>,
}

impl SimBus {
    /// A deselected bus whose device will answer with `script`, in order.
    pub fn new(script: Vec<u8>) -> (bus: SimBus)
        ensures
            bus.inv(),
            !bus.selected(),
            bus.replies() == script@,
            bus.events() == Seq::<BusEvent>::empty(),
    {
        let bus = SimBus { line_selected: false, script, cursor: 0, log: Vec::new() };
        proof {
            assert(bus.script@.skip(0) =~= bus.script@);
        }
        bus
    }

    /// The recorded trace, oldest event first.
    pub fn trace(&self) -> (log: &Vec<BusEvent>)
        ensures
            log@ == self.events(),
    {
        &self.log
    }

    /// Whether chip-select currently reads low.
    pub fn chip_selected(&self) -> (s: bool)
        ensures
            s == self.selected(),
    {
        self.line_selected
    }

    /// How many scripted reply bytes are still unread.
    pub fn replies_left(&self) -> (n: usize)
        requires
            self.inv(),
        ensures
            n == self.replies().len(),
    {
        self.script.len() - self.cursor
    }
}

impl Lps25hbBus for SimBus {
    closed spec fn inv(&self) -> bool {
        self.cursor <= self.script@.len()
    }

    closed spec fn selected(&self) -> bool {
        self.line_selected
    }

    closed spec fn events(&self) -> Seq<BusEvent> {
        self.log@
    }

    closed spec fn replies(&self) -> Seq<u8> {
        self.script@.skip(self.cursor as int)
    }

    fn select(&mut self) {
        self.line_selected = true;
        self.log.push(BusEvent::Select);
    }

    fn deselect(&mut self) {
        self.line_selected = false;
        self.log.push(BusEvent::Deselect);
    }

    fn exchange(&mut self, data: u8) -> (received: u8) {
        let n = self.script.len();
        proof {
            assert(old(self).replies().len() == self.script@.len() - self.cursor as int);
            assert(self.cursor < n);
        }
        let received = self.script[self.cursor];
        self.cursor = self.cursor + 1;
        self.log.push(BusEvent::Byte { sent: data, received });
        proof {
            assert(final(self).replies() =~= old(self).replies().skip(1));
        }
        received
    }
}

} // verus!
