//! The root machine context.
//!
//! Everything the runtime owns lives in one [`Machine`]: the heap, the
//! video context (register cache, command ring, rendezvous slot, and the
//! port sink), the interrupt mask, and both controller states. What would
//! be process-wide singletons on the hardware are fields here; the runtime
//! shell constructs one machine at boot and hands it to everything.
//!
//! Every entry point that runs inside the interrupt-masked bracket takes a
//! [`critical_section::CriticalSection`] token: state that an interrupt
//! handler also touches cannot be reached without one. Each such entry
//! point also models the bracket itself on [`IntMask`]: raise to level 7,
//! restore to the constant level 1 — so none of them may be entered while
//! another section is active (the mask would be restored to the wrong
//! level; nesting is a documented hazard, not supported).

use vstd::prelude::*;

use critical_section::CriticalSection;

use crate::dma::DMACommand;
use crate::dma::spec_execute_writes;
use crate::heap::Block;
use crate::heap::MDSpecializeAlloc;
use crate::heap::range_eq;
use crate::heap::spec_scan;
use crate::io::ControllerState;
use crate::io::spec_compose_sample;
use crate::mask::IntMask;
use crate::ports::PortLog;
use crate::ports::PortWrite;
use crate::queue::DmaQueue;
use crate::settings::Settings;
use crate::settings::spec_apply_writes;
use crate::slot::VintSlot;
use crate::vdp::Address;
use crate::vdp::LongCmd;
use crate::vdp::Status;
use crate::vdp::WordCmd;
use crate::vdp::spec_pack_words;
use crate::vdp::spec_set_addr_w;
use crate::vdp::spec_set_reg;

verus! {

/// The video coprocessor context: the abstract port sink, the cached
/// settings image, the DMA command ring, and the one-shot vblank slot.
pub struct VDP {
    pub ports: PortLog,
    pub settings: Settings,
    pub queue: DmaQueue,
    pub slot: VintSlot,
}

/// The diagnostic traffic for a message: byte pairs through debug register
/// writes, a lone final byte padded with zero, and a zero terminator after
/// an even-length message.
pub open spec fn spec_alert_writes(msg: Seq<u8>, i: int) -> Seq<PortWrite>
    decreases msg.len() - i,
    when 0 <= i <= msg.len()
{
    if i + 2 <= msg.len() {
        seq![
            PortWrite::Ctrl32(spec_pack_words(spec_set_reg(30, msg[i]), spec_set_reg(30, msg[i + 1]))),
        ] + spec_alert_writes(msg, i + 2)
    } else if i + 1 == msg.len() {
        seq![
            PortWrite::Ctrl32(spec_pack_words(spec_set_reg(30, msg[i]), spec_set_reg(30, 0))),
        ]
    } else {
        seq![PortWrite::Ctrl16(spec_set_reg(30, 0))]
    }
}

impl VDP {
    /// Structural soundness of the video context.
    pub open spec fn wf(&self) -> bool {
        self.queue.wf()
    }

    /// A fresh video context: nothing written, boot settings cached, an
    /// empty command ring of the given capacity, no callback pending.
    pub fn new(queue_capacity: u8) -> (r: Self)
        requires
            queue_capacity >= 1,
        ensures
            r.wf(),
            r.ports@ == Seq::<PortWrite>::empty(),
            r.settings == crate::settings::spec_boot_settings(),
            r.queue@ == Seq::<DMACommand>::empty(),
            r.queue.spec_capacity() == queue_capacity,
            r.slot.spec_pending() is None,
    {
        VDP {
            ports: PortLog::new(),
            settings: Settings::default(),
            queue: DmaQueue::new(queue_capacity),
            slot: VintSlot::new(),
        }
    }

    /// Program the write address for direct data-port access.
    pub fn set_address(&mut self, addr: Address)
        ensures
            *final(self) == (VDP { ports: final(self).ports, ..*old(self) }),
            final(self).ports@ == old(self).ports@.push(
                PortWrite::Ctrl32(spec_set_addr_w(addr, false, false)),
            ),
    {
        LongCmd::set_addr_w(addr, false, false).execute(&mut self.ports);
    }

    /// Program the data-port autoincrement step.
    pub fn set_autoinc(&mut self, inc: u8)
        ensures
            *final(self) == (VDP { ports: final(self).ports, ..*old(self) }),
            final(self).ports@ == old(self).ports@.push(
                PortWrite::Ctrl16(spec_set_reg(15, inc)),
            ),
    {
        WordCmd::set_reg(15, inc).execute(&mut self.ports);
    }

    /// Emit a diagnostic message through the debug register, byte pairs at
    /// a time. This is the lowest-level output path, used by the fatal
    /// handler before halting.
    pub fn debug_alert(&mut self, message: &Vec<u8>)
        ensures
            *final(self) == (VDP { ports: final(self).ports, ..*old(self) }),
            final(self).ports@ == old(self).ports@ + spec_alert_writes(message@, 0),
    {
        let ghost l0 = self.ports@;
        let mut i: usize = 0;
        while i < message.len() && i + 1 < message.len()
            invariant
                i <= message@.len(),
                *self == (VDP { ports: self.ports, ..*old(self) }),
                self.ports@ == l0 + spec_alert_writes(message@, 0).take(
                    spec_alert_writes(message@, 0).len() - spec_alert_writes(
                        message@,
                        i as int,
                    ).len(),
                ),
                spec_alert_writes(message@, 0).len() - spec_alert_writes(message@, i as int).len()
                    >= 0,
                spec_alert_writes(message@, 0) == spec_alert_writes(message@, 0).take(
                    spec_alert_writes(message@, 0).len() - spec_alert_writes(
                        message@,
                        i as int,
                    ).len(),
                ) + spec_alert_writes(message@, i as int),
            decreases message@.len() - i,
        {
            let cmd = LongCmd::from_words(
                WordCmd::set_reg(30, message[i]),
                WordCmd::set_reg(30, message[i + 1]),
            );
            cmd.execute(&mut self.ports);
            proof {
                let full = spec_alert_writes(message@, 0);
                let restb = spec_alert_writes(message@, i as int);
                let resta = spec_alert_writes(message@, i + 2);
                assert(restb == seq![
                    PortWrite::Ctrl32(
                        spec_pack_words(
                            spec_set_reg(30, message@[i as int]),
                            spec_set_reg(30, message@[i + 1]),
                        ),
                    ),
                ] + resta);
                assert(full.take(full.len() - resta.len()) =~= full.take(
                    full.len() - restb.len(),
                ).push(
                    PortWrite::Ctrl32(
                        spec_pack_words(
                            spec_set_reg(30, message@[i as int]),
                            spec_set_reg(30, message@[i + 1]),
                        ),
                    ),
                ));
            }
            i = i + 2;
        }
        if i < message.len() {
            let cmd = LongCmd::from_words(
                WordCmd::set_reg(30, message[i]),
                WordCmd::set_reg(30, 0),
            );
            cmd.execute(&mut self.ports);
            proof {
                let full = spec_alert_writes(message@, 0);
                let restb = spec_alert_writes(message@, i as int);
                assert(full.take(full.len() - restb.len()).push(
                    PortWrite::Ctrl32(
                        spec_pack_words(spec_set_reg(30, message@[i as int]), spec_set_reg(30, 0)),
                    ),
                ) =~= full);
                assert(self.ports@ =~= l0 + full);
            }
        } else {
            WordCmd::set_reg(30, 0).execute(&mut self.ports);
            proof {
                let full = spec_alert_writes(message@, 0);
                let restb = spec_alert_writes(message@, i as int);
                assert(restb == seq![PortWrite::Ctrl16(spec_set_reg(30, 0))]);
                assert(full.take(full.len() - restb.len()).push(
                    PortWrite::Ctrl16(spec_set_reg(30, 0)),
                ) =~= full);
                assert(self.ports@ =~= l0 + full);
            }
        }
    }

    /// Halt the machine through the debug register. The fatal path: after
    /// this the hardware never resumes.
    pub fn debug_halt(&mut self)
        ensures
            *final(self) == (VDP { ports: final(self).ports, ..*old(self) }),
            final(self).ports@ == old(self).ports@.push(
                PortWrite::Ctrl16(spec_set_reg(29, 0)),
            ),
    {
        WordCmd::set_reg(29, 0).execute(&mut self.ports);
    }
}

/// What the interrupt hands to the shell to run: the pending callback,
/// unless a transfer still occupies the port, in which case nothing runs
/// and the callback stays registered for the next frame.
pub open spec fn spec_slot_ran(pending: Option<u16>, port_busy: bool) -> Option<u16> {
    if port_busy {
        None
    } else {
        pending
    }
}

/// What the slot holds after the interrupt: untouched while the port is
/// busy, consumed (cleared) otherwise.
pub open spec fn spec_slot_after(pending: Option<u16>, port_busy: bool) -> Option<u16> {
    if port_busy {
        pending
    } else {
        None
    }
}

/// The rendezvous is one-shot. Once registered, a callback is handed out
/// by the first interrupt that finds the port idle — exactly that once:
/// the slot is then empty, and a further interrupt before any new
/// registration hands out nothing.
pub proof fn lemma_callback_exactly_once(h: u16)
    ensures
        spec_slot_ran(Some(h), false) == Some(h),
        spec_slot_after(Some(h), false) is None,
        spec_slot_ran(spec_slot_after(Some(h), false), false) is None,
        spec_slot_after(spec_slot_after(Some(h), false), false) is None,
{
}

/// How many commands the drain loop executes: one sample is consumed per
/// poll of the status port, starting at sample `i`; draining stops the
/// instant the blank window ends, and waits (consuming samples) while a
/// transfer is in flight, popping one command per idle poll until the ring
/// empties or the samples run out.
pub open spec fn spec_drain_count(q: Seq<DMACommand>, ss: Seq<Status>, i: int) -> int
    decreases ss.len() - i,
    when 0 <= i <= ss.len()
{
    if i >= ss.len() {
        0
    } else if !ss[i].spec_in_vblank() {
        0
    } else if ss[i].spec_dma_in_progress() {
        spec_drain_count(q, ss, i + 1)
    } else if q.len() == 0 {
        0
    } else {
        1 + spec_drain_count(q.drop_first(), ss, i + 1)
    }
}

/// The port traffic of executing the first `k` commands of `q` in order.
pub open spec fn spec_cmds_writes(q: Seq<DMACommand>, k: int) -> Seq<PortWrite>
    decreases k,
    when 0 <= k <= q.len()
{
    if k <= 0 {
        Seq::empty()
    } else {
        spec_execute_writes(q[0]) + spec_cmds_writes(q.drop_first(), k - 1)
    }
}

/// Executing one more command appends its writes.
proof fn lemma_cmds_writes_snoc(q: Seq<DMACommand>, k: int)
    requires
        0 <= k < q.len(),
    ensures
        spec_cmds_writes(q, k + 1) == spec_cmds_writes(q, k) + spec_execute_writes(q[k]),
    decreases k,
{
    if k == 0 {
        assert(spec_cmds_writes(q.drop_first(), 0) == Seq::<PortWrite>::empty());
        assert(spec_cmds_writes(q, 1) =~= spec_cmds_writes(q, 0) + spec_execute_writes(q[0]));
    } else {
        lemma_cmds_writes_snoc(q.drop_first(), k - 1);
        assert(q.drop_first()[k - 1] == q[k]);
        assert(spec_cmds_writes(q, k + 1) =~= spec_cmds_writes(q, k) + spec_execute_writes(q[k]));
    }
}

/// The machine: one of everything, constructed once at boot.
pub struct Machine {
    pub heap: MDSpecializeAlloc,
    pub vdp: VDP,
    pub mask: IntMask,
    pub p1: ControllerState,
    pub p2: ControllerState,
}

impl Machine {
    pub open spec fn wf(&self) -> bool {
        &&& self.heap.wf()
        &&& self.vdp.wf()
    }

    /// Every lock-guarded entry point requires this: no section active, so
    /// the bracket's fixed restore level is the right one.
    pub open spec fn unlocked(&self) -> bool {
        !self.mask.spec_active()
    }

    /// Boot the machine: heap planted with its root free block, empty ring,
    /// empty slot, boot settings, controllers cleared, interrupts masked.
    pub fn new(heap_size: usize, queue_capacity: u8) -> (r: Self)
        requires
            4 <= heap_size <= 0x10000,
            heap_size % 2 == 0,
            queue_capacity >= 1,
        ensures
            r.wf(),
            r.unlocked(),
            r.heap.spec_size() == heap_size,
            r.heap.blocks() == seq![
                Block { off: 0, words: (heap_size - 2) as int / 2, free: true },
            ],
            r.heap.spec_free_bytes() == heap_size - 2,
            r.vdp.ports@ == Seq::<PortWrite>::empty(),
            r.vdp.queue@ == Seq::<DMACommand>::empty(),
            r.vdp.queue.spec_capacity() == queue_capacity,
            r.vdp.slot.spec_pending() is None,
            r.vdp.settings == crate::settings::spec_boot_settings(),
    {
        let mut heap = MDSpecializeAlloc::new(heap_size);
        heap.init();
        Machine {
            heap,
            vdp: VDP::new(queue_capacity),
            mask: IntMask::new(),
            p1: ControllerState::new(),
            p2: ControllerState::new(),
        }
    }

    /// Allocate under the lock: raise the mask, run the heap scan, restore.
    pub fn allocate(&mut self, cs: CriticalSection<'_>, size: usize, align: usize) -> (r: Option<
        usize,
    >)
        requires
            old(self).wf(),
            old(self).unlocked(),
            1 <= align <= 0x8000,
        ensures
            final(self).wf(),
            final(self).unlocked(),
            final(self).mask.spec_level() == 1,
            final(self).vdp == old(self).vdp,
            final(self).p1 == old(self).p1,
            final(self).p2 == old(self).p2,
            final(self).heap.spec_size() == old(self).heap.spec_size(),
            final(self).heap.blocks() == spec_scan(
                old(self).heap.blocks(),
                size as int,
                align as int,
            ).0,
            (match r {
                Some(p) => spec_scan(old(self).heap.blocks(), size as int, align as int).1 == Some(
                    p as int,
                ) && p % align == 0 && 2 <= p && p + size <= final(self).heap.spec_size(),
                None => spec_scan(old(self).heap.blocks(), size as int, align as int).1 is None,
            }),
            (match r {
                Some(p) => forall|bi: int|
                    0 <= bi < old(self).heap.blocks().len() && !(#[trigger] old(
                        self,
                    ).heap.blocks()[bi]).free ==> (p >= old(self).heap.blocks()[bi].off + 2 + 2
                        * old(self).heap.blocks()[bi].words || old(self).heap.blocks()[bi].off >= p
                        + size),
                None => true,
            }),
            forall|bi: int|
                0 <= bi < old(self).heap.blocks().len() && !(#[trigger] old(
                    self,
                ).heap.blocks()[bi]).free ==> range_eq(
                    old(self).heap.view(),
                    final(self).heap.view(),
                    old(self).heap.blocks()[bi].off,
                    old(self).heap.blocks()[bi].off + 2 + 2 * old(self).heap.blocks()[bi].words,
                ),
    {
        let _ = cs;
        let s = self.mask.acquire(7, 1);
        let r = self.heap.allocate(size, align);
        self.mask.release(s);
        r
    }

    /// Free under the lock. Total free bytes grow by exactly the block's
    /// data size; merging waits for the next allocation scan.
    pub fn deallocate(&mut self, cs: CriticalSection<'_>, ptr: usize, size: usize, align: usize)
        requires
            old(self).wf(),
            old(self).unlocked(),
            ptr >= 2,
            exists|i: int|
                0 <= i < old(self).heap.blocks().len() && (#[trigger] old(
                    self,
                ).heap.blocks()[i]).off == ptr - 2 && !old(self).heap.blocks()[i].free,
        ensures
            final(self).wf(),
            final(self).unlocked(),
            final(self).mask.spec_level() == 1,
            final(self).vdp == old(self).vdp,
            final(self).p1 == old(self).p1,
            final(self).p2 == old(self).p2,
            final(self).heap.spec_size() == old(self).heap.spec_size(),
            final(self).heap.spec_free_bytes() == old(self).heap.spec_free_bytes() + ({
                let i = choose|i: int|
                    0 <= i < old(self).heap.blocks().len() && (#[trigger] old(
                        self,
                    ).heap.blocks()[i]).off == ptr - 2 && !old(self).heap.blocks()[i].free;
                2 * old(self).heap.blocks()[i].words
            }),
            ({
                let i = choose|i: int|
                    0 <= i < old(self).heap.blocks().len() && (#[trigger] old(
                        self,
                    ).heap.blocks()[i]).off == ptr - 2 && !old(self).heap.blocks()[i].free;
                final(self).heap.blocks() == old(self).heap.blocks().update(
                    i,
                    Block { free: true, ..old(self).heap.blocks()[i] },
                )
            }),
    {
        let _ = cs;
        let s = self.mask.acquire(7, 1);
        self.heap.deallocate(ptr, size, align);
        self.mask.release(s);
    }

    /// Reallocate under the lock: new block, copy the smaller size, free
    /// the old block. On failure nothing is freed and every previously
    /// used block — the old allocation included — keeps its bytes; on
    /// success every prior allocation's data is likewise untouched.
    pub fn reallocate(
        &mut self,
        cs: CriticalSection<'_>,
        ptr: usize,
        old_size: usize,
        align: usize,
        new_size: usize,
    ) -> (r: Option<usize>)
        requires
            old(self).wf(),
            old(self).unlocked(),
            1 <= align <= 0x8000,
            ptr >= 2,
            exists|i: int|
                0 <= i < old(self).heap.blocks().len() && (#[trigger] old(
                    self,
                ).heap.blocks()[i]).off == ptr - 2 && !old(self).heap.blocks()[i].free && old_size
                    <= 2 * old(self).heap.blocks()[i].words,
        ensures
            final(self).wf(),
            final(self).unlocked(),
            final(self).mask.spec_level() == 1,
            final(self).vdp == old(self).vdp,
            final(self).heap.spec_size() == old(self).heap.spec_size(),
            ({
                let sc = spec_scan(old(self).heap.blocks(), new_size as int, align as int);
                match r {
                    None => sc.1 is None && final(self).heap.blocks() == sc.0,
                    Some(np) => sc.1 == Some(np as int) && np % align == 0 && (exists|i: int|
                        0 <= i < sc.0.len() && (#[trigger] sc.0[i]).off == ptr - 2 && !sc.0[i].free
                            && final(self).heap.blocks() == sc.0.update(
                            i,
                            Block { free: true, ..sc.0[i] },
                        )) && (forall|i: int|
                        0 <= i < (if old_size < new_size {
                            old_size as int
                        } else {
                            new_size as int
                        }) ==> #[trigger] final(self).heap.view()[np + i] == old(
                            self,
                        ).heap.view()[ptr + i]),
                }
            }),
            (r is None ==> (forall|bi: int|
                0 <= bi < old(self).heap.blocks().len() && !(#[trigger] old(
                    self,
                ).heap.blocks()[bi]).free ==> range_eq(
                    old(self).heap.view(),
                    final(self).heap.view(),
                    old(self).heap.blocks()[bi].off,
                    old(self).heap.blocks()[bi].off + 2 + 2 * old(self).heap.blocks()[bi].words,
                ))),
            (r is Some ==> (forall|bi: int|
                0 <= bi < old(self).heap.blocks().len() && !(#[trigger] old(
                    self,
                ).heap.blocks()[bi]).free ==> range_eq(
                    old(self).heap.view(),
                    final(self).heap.view(),
                    old(self).heap.blocks()[bi].off + 2,
                    old(self).heap.blocks()[bi].off + 2 + 2 * old(self).heap.blocks()[bi].words,
                ) && (old(self).heap.blocks()[bi].off != ptr - 2 ==> range_eq(
                    old(self).heap.view(),
                    final(self).heap.view(),
                    old(self).heap.blocks()[bi].off,
                    old(self).heap.blocks()[bi].off + 2 + 2 * old(self).heap.blocks()[bi].words,
                )))),
    {
        let _ = cs;
        let s = self.mask.acquire(7, 1);
        let r = self.heap.reallocate(ptr, old_size, align, new_size);
        self.mask.release(s);
        r
    }

    /// Allocate zeroed memory under the lock.
    pub fn allocate_zeroed(&mut self, cs: CriticalSection<'_>, size: usize, align: usize) -> (r:
        Option<usize>)
        requires
            old(self).wf(),
            old(self).unlocked(),
            1 <= align <= 0x8000,
        ensures
            final(self).wf(),
            final(self).unlocked(),
            final(self).mask.spec_level() == 1,
            final(self).vdp == old(self).vdp,
            final(self).heap.spec_size() == old(self).heap.spec_size(),
            final(self).heap.blocks() == spec_scan(
                old(self).heap.blocks(),
                size as int,
                align as int,
            ).0,
            (match r {
                Some(p) => spec_scan(old(self).heap.blocks(), size as int, align as int).1 == Some(
                    p as int,
                ) && p % align == 0 && 2 <= p && p + size <= final(self).heap.spec_size() && (
                forall|i: int| 0 <= i < size ==> #[trigger] final(self).heap.view()[p + i] == 0),
                None => spec_scan(old(self).heap.blocks(), size as int, align as int).1 is None,
            }),
            (match r {
                Some(p) => forall|bi: int|
                    0 <= bi < old(self).heap.blocks().len() && !(#[trigger] old(
                        self,
                    ).heap.blocks()[bi]).free ==> (p >= old(self).heap.blocks()[bi].off + 2 + 2
                        * old(self).heap.blocks()[bi].words || old(self).heap.blocks()[bi].off >= p
                        + size),
                None => true,
            }),
            forall|bi: int|
                0 <= bi < old(self).heap.blocks().len() && !(#[trigger] old(
                    self,
                ).heap.blocks()[bi]).free ==> range_eq(
                    old(self).heap.view(),
                    final(self).heap.view(),
                    old(self).heap.blocks()[bi].off,
                    old(self).heap.blocks()[bi].off + 2 + 2 * old(self).heap.blocks()[bi].words,
                ),
    {
        let _ = cs;
        let s = self.mask.acquire(7, 1);
        let r = self.heap.allocate_zeroed(size, align);
        self.mask.release(s);
        r
    }

    /// Queue a command for the next blank window. A full ring hands the
    /// command back unchanged — the backpressure signal; it is never
    /// dropped and never retried internally.
    pub fn schedule(&mut self, cs: CriticalSection<'_>, cmd: DMACommand) -> (r: Result<
        (),
        DMACommand,
    >)
        requires
            old(self).wf(),
            old(self).unlocked(),
        ensures
            final(self).wf(),
            final(self).unlocked(),
            final(self).mask.spec_level() == 1,
            final(self).heap == old(self).heap,
            final(self).p1 == old(self).p1,
            final(self).p2 == old(self).p2,
            final(self).vdp.ports == old(self).vdp.ports,
            final(self).vdp.settings == old(self).vdp.settings,
            final(self).vdp.slot == old(self).vdp.slot,
            final(self).vdp.queue.spec_capacity() == old(self).vdp.queue.spec_capacity(),
            old(self).vdp.queue@.len() == old(self).vdp.queue.spec_capacity() ==> r == Result::<
                (),
                DMACommand,
            >::Err(cmd) && final(self).vdp.queue@ == old(self).vdp.queue@,
            old(self).vdp.queue@.len() < old(self).vdp.queue.spec_capacity() ==> r == Result::<
                (),
                DMACommand,
            >::Ok(()) && final(self).vdp.queue@ == old(self).vdp.queue@.push(cmd),
    {
        let _ = cs;
        let s = self.mask.acquire(7, 1);
        let r = self.vdp.queue.push_back(cmd);
        self.mask.release(s);
        r
    }

    /// Register the one-shot vblank callback handle and hand control to the
    /// wait: the caller then busy-polls [`Self::vint_pending`] until the
    /// interrupt has consumed the slot. The callback, once registered, runs
    /// exactly once and cannot be withdrawn.
    pub fn wait_for_vblank_begin(&mut self, handler: u16)
        requires
            old(self).vdp.slot.spec_pending() is None,
        ensures
            *final(self) == (Machine { vdp: final(self).vdp, ..*old(self) }),
            final(self).vdp == (VDP { slot: final(self).vdp.slot, ..old(self).vdp }),
            final(self).vdp.slot.spec_pending() == Some(handler),
    {
        self.vdp.slot.register(handler);
    }

    /// True while the registered callback has not yet been consumed; the
    /// foreground spins on this, and the vblank interrupt clears it.
    pub fn vint_pending(&self) -> (r: bool)
        ensures
            r == (self.vdp.slot.spec_pending() is Some),
    {
        self.vdp.slot.is_pending()
    }

    /// Drain the ring against a run of status samples, one port poll per
    /// sample starting at index `start`: wait out polls that show a
    /// transfer in flight, execute one command per idle poll, and stop the
    /// instant the window closes, the ring empties, or the samples run out.
    fn drain_from(&mut self, samples: &Vec<Status>, start: usize)
        requires
            old(self).wf(),
            start <= samples@.len(),
        ensures
            final(self).wf(),
            final(self).heap == old(self).heap,
            final(self).mask == old(self).mask,
            final(self).p1 == old(self).p1,
            final(self).p2 == old(self).p2,
            final(self).vdp.settings == old(self).vdp.settings,
            final(self).vdp.slot == old(self).vdp.slot,
            final(self).vdp.queue.spec_capacity() == old(self).vdp.queue.spec_capacity(),
            final(self).vdp.queue@ == old(self).vdp.queue@.skip(
                spec_drain_count(old(self).vdp.queue@, samples@, start as int),
            ),
            final(self).vdp.ports@ == old(self).vdp.ports@ + spec_cmds_writes(
                old(self).vdp.queue@,
                spec_drain_count(old(self).vdp.queue@, samples@, start as int),
            ),
    {
        let ghost q0 = self.vdp.queue@;
        let ghost l0 = self.vdp.ports@;
        let ghost mid = *self;
        let mut j: usize = start;
        loop
            invariant_except_break
                spec_drain_count(q0, samples@, start as int) == (q0.len() - self.vdp.queue@.len())
                    + spec_drain_count(self.vdp.queue@, samples@, j as int),
            invariant
                self.heap == mid.heap,
                self.mask == mid.mask,
                self.p1 == mid.p1,
                self.p2 == mid.p2,
                self.vdp.settings == mid.vdp.settings,
                self.vdp.slot == mid.vdp.slot,
                self.vdp.queue.wf(),
                self.vdp.queue.spec_capacity() == mid.vdp.queue.spec_capacity(),
                start <= j <= samples@.len(),
                self.vdp.queue@.len() <= q0.len(),
                self.vdp.queue@ == q0.skip(q0.len() - self.vdp.queue@.len()),
                self.vdp.ports@ == l0 + spec_cmds_writes(q0, q0.len() - self.vdp.queue@.len()),
            ensures
                self.heap == mid.heap,
                self.mask == mid.mask,
                self.p1 == mid.p1,
                self.p2 == mid.p2,
                self.vdp.settings == mid.vdp.settings,
                self.vdp.slot == mid.vdp.slot,
                self.vdp.queue.wf(),
                self.vdp.queue.spec_capacity() == mid.vdp.queue.spec_capacity(),
                self.vdp.queue@ == q0.skip(spec_drain_count(q0, samples@, start as int)),
                self.vdp.ports@ == l0 + spec_cmds_writes(
                    q0,
                    spec_drain_count(q0, samples@, start as int),
                ),
            decreases samples@.len() - j,
        {
            if j == samples.len() {
                proof {
                    assert(spec_drain_count(self.vdp.queue@, samples@, j as int) == 0);
                }
                break;
            }
            let st = samples[j];
            j = j + 1;
            if !st.in_vblank() {
                proof {
                    assert(spec_drain_count(self.vdp.queue@, samples@, j as int - 1) == 0);
                }
                break;
            }
            if st.dma_in_progress() {
                proof {
                    assert(spec_drain_count(self.vdp.queue@, samples@, j as int - 1)
                        == spec_drain_count(self.vdp.queue@, samples@, j as int));
                }
                continue;
            }
            let ghost qn = self.vdp.queue@;
            let ghost c = q0.len() - qn.len();
            match self.vdp.queue.pop_front() {
                None => {
                    proof {
                        assert(spec_drain_count(qn, samples@, j as int - 1) == 0);
                    }
                    break;
                },
                Some(cmd) => {
                    proof {
                        assert(spec_drain_count(qn, samples@, j as int - 1) == 1
                            + spec_drain_count(qn.drop_first(), samples@, j as int));
                        assert(qn[0] == q0.skip(c)[0]);
                        assert(q0.skip(c)[0] == q0[c]);
                        assert(qn.drop_first() =~= q0.skip(c + 1));
                        lemma_cmds_writes_snoc(q0, c);
                    }
                    cmd.execute(&mut self.vdp.ports);
                },
            }
        }
    }

    /// The whole vertical-blank interrupt in one call. Fires at the
    /// hardware blank edge (the first status sample must show the window
    /// open): samples both controllers, then — unless a transfer is already
    /// in flight — consumes the pending one-shot callback and drains the
    /// ring while the window stays open, one status poll per sample in
    /// `samples`, executing at most one command per idle poll.
    ///
    /// The consumed callback handle is the return value, so a shell using
    /// this convenience runs the callback only after the drain. To run it
    /// in the interrupt's own order — sampling, then the callback, then the
    /// drain — use [`Self::vblank_enter`] followed by [`Self::vblank_drain`]
    /// and run the callback between them.
    pub fn vblank_interrupt(
        &mut self,
        cs: CriticalSection<'_>,
        p1s: (u8, u8, u8, u8),
        p2s: (u8, u8, u8, u8),
        samples: &Vec<Status>,
    ) -> (r: Option<u16>)
        requires
            old(self).wf(),
            old(self).unlocked(),
            samples@.len() >= 1,
            samples@[0].spec_in_vblank(),
        ensures
            final(self).wf(),
            final(self).unlocked(),
            final(self).mask.spec_level() == 1,
            final(self).heap == old(self).heap,
            final(self).vdp.settings == old(self).vdp.settings,
            final(self).vdp.queue.spec_capacity() == old(self).vdp.queue.spec_capacity(),
            final(self).p1.spec_previous() == old(self).p1.spec_current(),
            final(self).p1.spec_current() == spec_compose_sample(p1s.0, p1s.1, p1s.2, p1s.3),
            final(self).p2.spec_previous() == old(self).p2.spec_current(),
            final(self).p2.spec_current() == spec_compose_sample(p2s.0, p2s.1, p2s.2, p2s.3),
            r == spec_slot_ran(
                old(self).vdp.slot.spec_pending(),
                samples@[0].spec_dma_in_progress(),
            ),
            final(self).vdp.slot.spec_pending() == spec_slot_after(
                old(self).vdp.slot.spec_pending(),
                samples@[0].spec_dma_in_progress(),
            ),
            samples@[0].spec_dma_in_progress() ==> final(self).vdp.queue@ == old(self).vdp.queue@
                && final(self).vdp.ports@ == old(self).vdp.ports@,
            !samples@[0].spec_dma_in_progress() ==> final(self).vdp.queue@ == old(
                self,
            ).vdp.queue@.skip(
                spec_drain_count(old(self).vdp.queue@, samples@, 1),
            )
                && final(self).vdp.ports@ == old(self).vdp.ports@ + spec_cmds_writes(
                old(self).vdp.queue@,
                spec_drain_count(old(self).vdp.queue@, samples@, 1),
            ),
    {
        let _ = cs;
        let s = self.mask.acquire(7, 1);
        self.p1 = self.p1.update(p1s.0, p1s.1, p1s.2, p1s.3);
        self.p2 = self.p2.update(p2s.0, p2s.1, p2s.2, p2s.3);
        let st0 = samples[0];
        if st0.dma_in_progress() {
            self.mask.release(s);
            return None;
        }
        let handler = self.vdp.slot.take();
        self.drain_from(samples, 1);
        self.mask.release(s);
        handler
    }

    /// The sampling half of the vertical-blank service: update both
    /// controller snapshots from this frame's polling pass and, unless a
    /// transfer still occupies the port, consume the one-shot callback and
    /// hand its handle to the shell — to run before [`Self::vblank_drain`],
    /// as the interrupt orders it. While the port is busy nothing runs and
    /// the callback stays registered for the next frame.
    pub fn vblank_enter(
        &mut self,
        cs: CriticalSection<'_>,
        p1s: (u8, u8, u8, u8),
        p2s: (u8, u8, u8, u8),
        status: Status,
    ) -> (r: Option<u16>)
        requires
            old(self).wf(),
            old(self).unlocked(),
            status.spec_in_vblank(),
        ensures
            final(self).wf(),
            final(self).unlocked(),
            final(self).mask.spec_level() == 1,
            final(self).heap == old(self).heap,
            final(self).vdp.settings == old(self).vdp.settings,
            final(self).vdp.queue == old(self).vdp.queue,
            final(self).vdp.ports@ == old(self).vdp.ports@,
            final(self).p1.spec_previous() == old(self).p1.spec_current(),
            final(self).p1.spec_current() == spec_compose_sample(p1s.0, p1s.1, p1s.2, p1s.3),
            final(self).p2.spec_previous() == old(self).p2.spec_current(),
            final(self).p2.spec_current() == spec_compose_sample(p2s.0, p2s.1, p2s.2, p2s.3),
            r == spec_slot_ran(
                old(self).vdp.slot.spec_pending(),
                status.spec_dma_in_progress(),
            ),
            final(self).vdp.slot.spec_pending() == spec_slot_after(
                old(self).vdp.slot.spec_pending(),
                status.spec_dma_in_progress(),
            ),
    {
        let _ = cs;
        let s = self.mask.acquire(7, 1);
        self.p1 = self.p1.update(p1s.0, p1s.1, p1s.2, p1s.3);
        self.p2 = self.p2.update(p2s.0, p2s.1, p2s.2, p2s.3);
        if status.dma_in_progress() {
            self.mask.release(s);
            return None;
        }
        let handler = self.vdp.slot.take();
        self.mask.release(s);
        handler
    }

    /// The drain half of the vertical-blank service: empty the ring toward
    /// the hardware while the blank window stays open, one status poll per
    /// sample. Runs after the callback when the shell follows the
    /// interrupt's order.
    pub fn vblank_drain(&mut self, cs: CriticalSection<'_>, samples: &Vec<Status>)
        requires
            old(self).wf(),
            old(self).unlocked(),
        ensures
            final(self).wf(),
            final(self).unlocked(),
            final(self).mask.spec_level() == 1,
            final(self).heap == old(self).heap,
            final(self).p1 == old(self).p1,
            final(self).p2 == old(self).p2,
            final(self).vdp.settings == old(self).vdp.settings,
            final(self).vdp.slot == old(self).vdp.slot,
            final(self).vdp.queue.spec_capacity() == old(self).vdp.queue.spec_capacity(),
            final(self).vdp.queue@ == old(self).vdp.queue@.skip(
                spec_drain_count(old(self).vdp.queue@, samples@, 0),
            ),
            final(self).vdp.ports@ == old(self).vdp.ports@ + spec_cmds_writes(
                old(self).vdp.queue@,
                spec_drain_count(old(self).vdp.queue@, samples@, 0),
            ),
    {
        let _ = cs;
        let s = self.mask.acquire(7, 1);
        self.drain_from(samples, 0);
        self.mask.release(s);
    }

    /// Program a settings image under the lock: diff against the cache,
    /// write exactly the changed registers (all when forced), replace the
    /// cache.
    pub fn apply_settings(&mut self, cs: CriticalSection<'_>, goal: Settings, force: bool)
        requires
            old(self).wf(),
            old(self).unlocked(),
        ensures
            final(self).wf(),
            final(self).unlocked(),
            final(self).mask.spec_level() == 1,
            final(self).heap == old(self).heap,
            final(self).p1 == old(self).p1,
            final(self).p2 == old(self).p2,
            final(self).vdp.queue == old(self).vdp.queue,
            final(self).vdp.slot == old(self).vdp.slot,
            final(self).vdp.settings == goal,
            final(self).vdp.ports@ == old(self).vdp.ports@ + spec_apply_writes(
                old(self).vdp.settings,
                goal,
                force,
            ),
    {
        let _ = cs;
        let s = self.mask.acquire(7, 1);
        goal.apply(&mut self.vdp.settings, &mut self.vdp.ports, force);
        self.mask.release(s);
    }

    /// Read the cached settings image under the lock.
    pub fn current_settings(&self, cs: CriticalSection<'_>) -> (r: Settings)
        ensures
            r == self.vdp.settings,
    {
        let _ = cs;
        self.vdp.settings
    }

    /// Read the first controller's snapshot. The interrupt rewrites it every
    /// frame, so the read needs the critical-section token.
    pub fn controller_1(&self, cs: CriticalSection<'_>) -> (r: ControllerState)
        ensures
            r == self.p1,
    {
        let _ = cs;
        self.p1
    }

    /// Read the second controller's snapshot, under the token like the first.
    pub fn controller_2(&self, cs: CriticalSection<'_>) -> (r: ControllerState)
        ensures
            r == self.p2,
    {
        let _ = cs;
        self.p2
    }
}

} // verus!
