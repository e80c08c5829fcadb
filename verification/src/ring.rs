//! The ring buffer core: the slot array, the two cursors, and the
//! claim/publish decision arithmetic.

use crate::handles::{Receiver, Sender, Users};
use vstd::arithmetic::div_mod::{
    lemma_add_mod_noop_right, lemma_mod_mod, lemma_mod_multiples_vanish, lemma_small_mod,
    lemma_sub_mod_noop,
};
use vstd::arithmetic::power2::{lemma2_to64, lemma_pow2_adds, lemma_pow2_strictly_increases, pow2};
use vstd::bits::lemma_usize_low_bits_mask_is_mod;
use vstd::prelude::*;
use vstd::wrapping::u32_specs;

verus! {

/// The sequence numbers and the cursors live in `u32` and wrap around; all
/// comparisons between them go through differences taken modulo this value.
pub open spec fn wrap_modulus() -> int {
    0x1_0000_0000
}

/// One slot of the ring: a sequence counter that encodes the slot's
/// publication state, and the payload value.
pub struct Cell<T> {
    pos: u32,
    data: T,
}

impl<T> Cell<T> {
    /// The slot's current sequence number.
    pub closed spec fn position(&self) -> u32 {
        self.pos
    }
}

impl<T: Default + Copy> Cell<T> {
    /// A fresh slot with sequence number `i` and a default payload. A slot's
    /// initial payload is never read back: a value is read from a slot only
    /// after a send has published one there.
    pub fn new(i: u32) -> (r: Cell<T>)
        ensures
            r.position() == i,
    {
        Cell { pos: i, data: T::default() }
    }
}

/// A bounded queue over a power-of-two array of slots.
///
/// The mathematical model is the sequence of queued values (the view `@`),
/// together with the absolute counts of successful sends and recvs
/// ([`Self::sends`], [`Self::recvs`]). A successful send claims absolute
/// position `sends()` and appends its value to the view; a successful recv
/// claims absolute position `recvs()` and removes the first element of the
/// view. The 32-bit cursors stored in the buffer are these counts reduced
/// modulo 2^32.
pub struct RingBuffer<T> {
    /// The index mask: slot count minus one. The slot count is a power of
    /// two, so `p & n` is `p` modulo the slot count.
    n: usize,
    v: Vec<Cell<T>>,
    enq_pos: u32,
    deq_pos: u32,
    users: Users,
    /// Exponent of the slot count: `v.len() == pow2(lg)`.
    lg: Ghost<nat>,
    /// Absolute count of successful sends.
    enq_count: Ghost<nat>,
    /// Absolute count of successful recvs.
    deq_count: Ghost<nat>,
    /// History: every value accepted by a successful send, in claim order.
    sent: Ghost<Seq<T>>,
    /// History: every value returned by a successful recv, in claim order.
    rcvd: Ghost<Seq<T>>,
}

impl<T> View for RingBuffer<T> {
    type V = Seq<T>;

    /// The queued values, oldest first.
    closed spec fn view(&self) -> Seq<T> {
        Seq::new(
            (self.enq_count@ - self.deq_count@) as nat,
            |i: int| self.data_at(self.deq_count@ + i),
        )
    }
}

impl<T> RingBuffer<T> {
    /// The sequence number of the slot owning absolute position `p`.
    spec fn seq_at(&self, p: int) -> int {
        self.v@[p % (self.v@.len() as int)].pos as int
    }

    /// The payload of the slot owning absolute position `p`.
    spec fn data_at(&self, p: int) -> T {
        self.v@[p % (self.v@.len() as int)].data
    }

    /// The number of slots in the ring.
    pub closed spec fn slot_count(&self) -> nat {
        self.v@.len()
    }

    /// Total number of successful sends so far; also the absolute position
    /// the next successful send will claim.
    pub closed spec fn sends(&self) -> nat {
        self.enq_count@
    }

    /// Total number of successful recvs so far; also the absolute position
    /// the next successful recv will claim.
    pub closed spec fn recvs(&self) -> nat {
        self.deq_count@
    }

    /// The values accepted by successful sends so far, in the order their
    /// absolute positions were claimed.
    pub closed spec fn sent_log(&self) -> Seq<T> {
        self.sent@
    }

    /// The values returned by successful recvs so far, in the order their
    /// absolute positions were claimed.
    pub closed spec fn recv_log(&self) -> Seq<T> {
        self.rcvd@
    }

    /// Live producer handles recorded in the registry.
    pub closed spec fn senders_live(&self) -> u32 {
        self.users.senders
    }

    /// Live consumer handles recorded in the registry.
    pub closed spec fn receivers_live(&self) -> u32 {
        self.users.receivers
    }

    /// Well-formedness: the slot count is a power of two between 2 and 2^31,
    /// the mask is the slot count minus one, the cursors are the absolute
    /// counts reduced modulo 2^32, at most `slot_count()` values are queued,
    /// and every slot's sequence number encodes its publication state:
    /// `p + 1` (mod 2^32) for a position `p` whose value is published and not
    /// yet consumed, `p` (mod 2^32) for a position `p` that is free to be
    /// claimed by the send that will target it.
    ///
    /// The history logs agree with the state: one entry per claimed position,
    /// the values consumed so far are the first `recvs()` values produced,
    /// and each still-published position `p` holds the value produced at `p`.
    pub closed spec fn wf(&self) -> bool {
        let nn = self.v@.len() as int;
        let e = self.enq_count@ as int;
        let d = self.deq_count@ as int;
        &&& self.lg@ <= 31
        &&& nn == pow2(self.lg@)
        &&& 2 <= nn <= 0x8000_0000
        &&& self.n == nn - 1
        &&& d <= e <= d + nn
        &&& self.enq_pos as int == e % wrap_modulus()
        &&& self.deq_pos as int == d % wrap_modulus()
        &&& forall|p: int| d <= p < e ==> #[trigger] self.seq_at(p) == (p + 1) % wrap_modulus()
        &&& forall|p: int| e <= p < d + nn ==> #[trigger] self.seq_at(p) == p % wrap_modulus()
        &&& self.sent@.len() == e
        &&& self.rcvd@.len() == d
        &&& self.rcvd@ == self.sent@.take(d)
        &&& forall|p: int| d <= p < e ==> #[trigger] self.data_at(p) == self.sent@[p]
    }
}

/// `wrapping_sub` on `u32` computes the difference modulo 2^32.
proof fn lemma_wrapping_sub_is_mod(a: u32, b: u32)
    ensures
        u32_specs::wrapping_sub(a, b) as int == (a - b) % wrap_modulus(),
{
    let m = wrap_modulus();
    if a - b < 0 {
        lemma_mod_multiples_vanish(1, a - b, m);
        lemma_small_mod((a - b + m) as nat, m as nat);
    } else {
        lemma_small_mod((a - b) as nat, m as nat);
    }
}

/// `wrapping_add` on `u32` computes the sum modulo 2^32.
proof fn lemma_wrapping_add_is_mod(a: u32, b: u32)
    ensures
        u32_specs::wrapping_add(a, b) as int == (a + b) % wrap_modulus(),
{
    let m = wrap_modulus();
    if a + b > u32::MAX {
        lemma_mod_multiples_vanish(-1, a + b, m);
        lemma_small_mod((a + b - m) as nat, m as nat);
    } else {
        lemma_small_mod((a + b) as nat, m as nat);
    }
}

/// Two distinct absolute positions less than one ring apart own distinct
/// slots.
proof fn lemma_mod_distinct(a: int, b: int, m: int)
    requires
        0 < m,
        a < b < a + m,
    ensures
        a % m != b % m,
{
    lemma_sub_mod_noop(b, a, m);
    lemma_small_mod((b - a) as nat, m as nat);
    lemma_small_mod(0nat, m as nat);
    if a % m == b % m {
        assert((b - a) % m == 0);
    }
}

/// Reducing modulo 2^32 and then modulo a power of two dividing it is the
/// same as reducing modulo that power of two directly.
proof fn lemma_mod_in_m32(x: int, nn: int, lg: nat)
    requires
        lg <= 32,
        nn == pow2(lg),
    ensures
        (x % wrap_modulus()) % nn == x % nn,
{
    lemma_pow2_adds(lg, (32 - lg) as nat);
    lemma2_to64();
    lemma_mod_mod(x, nn, pow2((32 - lg) as nat) as int);
}

impl<T> RingBuffer<T> {
    /// Masking a cursor with `n` yields the cursor's value modulo the slot
    /// count, which is a valid slot index.
    proof fn lemma_mask_index(&self, pos: u32)
        requires
            self.wf(),
        ensures
            ((pos as usize) & self.n) as int == pos as int % (self.v@.len() as int),
            ((pos as usize) & self.n) < self.v@.len(),
    {
        lemma_usize_low_bits_mask_is_mod(pos as usize, self.lg@);
        lemma2_to64();
        lemma_pow2_strictly_increases(self.lg@, 32);
    }
}

impl<T> RingBuffer<T> {
    /// Well-formedness and the queued values do not depend on the registry:
    /// two buffers equal in everything but their live-handle counts agree on
    /// both.
    proof fn lemma_registry_irrelevant(a: RingBuffer<T>, b: RingBuffer<T>)
        requires
            a.v@ == b.v@,
            a.n == b.n,
            a.enq_pos == b.enq_pos,
            a.deq_pos == b.deq_pos,
            a.lg@ == b.lg@,
            a.enq_count@ == b.enq_count@,
            a.deq_count@ == b.deq_count@,
            a.sent@ == b.sent@,
            a.rcvd@ == b.rcvd@,
        ensures
            a.wf() == b.wf(),
            a@ == b@,
    {
        let m = wrap_modulus();
        assert(a@ =~= b@);
        if a.wf() {
            assert forall|p: int| b.deq_count@ <= p < b.enq_count@ implies #[trigger] b.seq_at(p)
                == (p + 1) % m by {
                assert(a.seq_at(p) == (p + 1) % m);
            };
            assert forall|p: int|
                b.enq_count@ <= p < b.deq_count@ + b.v@.len() implies #[trigger] b.seq_at(p) == p
                % m by {
                assert(a.seq_at(p) == p % m);
            };
            assert forall|p: int| b.deq_count@ <= p < b.enq_count@ implies #[trigger] b.data_at(p)
                == b.sent@[p] by {
                assert(a.data_at(p) == a.sent@[p]);
            };
        }
        if b.wf() {
            assert forall|p: int| a.deq_count@ <= p < a.enq_count@ implies #[trigger] a.seq_at(p)
                == (p + 1) % m by {
                assert(b.seq_at(p) == (p + 1) % m);
            };
            assert forall|p: int|
                a.enq_count@ <= p < a.deq_count@ + a.v@.len() implies #[trigger] a.seq_at(p) == p
                % m by {
                assert(b.seq_at(p) == p % m);
            };
            assert forall|p: int| a.deq_count@ <= p < a.enq_count@ implies #[trigger] a.data_at(p)
                == a.sent@[p] by {
                assert(b.data_at(p) == b.sent@[p]);
            };
        }
    }
}

impl<T: Default + Copy> RingBuffer<T> {
    /// Build a buffer able to hold `n` values (`n > 0`), plus one producer
    /// handle and one consumer handle; the registry starts at one live handle
    /// of each kind.
    ///
    /// The slot count is the least power of two no smaller than `n + 1`, so
    /// all of `n + 1` up to `2 * n + 1` slots may actually be fillable;
    /// [`Self::capacity`] reports the slot count minus one. The bound on `n`
    /// keeps the slot count within the 32-bit sequence-number space the
    /// wraparound arithmetic needs.
    pub fn new(n: usize) -> (r: (RingBuffer<T>, Sender, Receiver))
        requires
            1 <= n <= 0x7fff_ffff,
        ensures
            r.0.wf(),
            r.0@ == Seq::<T>::empty(),
            r.0.sends() == 0,
            r.0.recvs() == 0,
            r.0.senders_live() == 1,
            r.0.receivers_live() == 1,
            n < r.0.slot_count() <= 2 * n + 1,
            exists|k: nat| r.0.slot_count() == pow2(k),
    {
        let mut size: usize = 2;
        let ghost mut k: nat = 1;
        proof {
            lemma2_to64();
        }
        while size < n + 1
            invariant
                1 <= n <= 0x7fff_ffff,
                1 <= k <= 31,
                size == pow2(k),
                2 <= size <= 0x8000_0000,
                size < 2 * (n + 1),
                pow2((k - 1) as nat) < n + 1,
            decreases 2 * (n + 1) - size,
        {
            proof {
                lemma2_to64();
                if k + 1 > 31 {
                    lemma_pow2_strictly_increases(31, k + 1);
                }
                lemma_pow2_strictly_increases(k, k + 1);
                assert(pow2(k + 1) == 2 * pow2(k)) by {
                    lemma_pow2_adds(k, 1);
                }
            }
            size = size * 2;
            proof {
                k = k + 1;
            }
        }
        let mut v: Vec<Cell<T>> = Vec::new();
        let mut i: usize = 0;
        while i < size
            invariant
                i <= size,
                size <= 0x8000_0000,
                v@.len() == i,
                forall|j: int| 0 <= j < i ==> (#[trigger] v@[j]).position() == j,
            decreases size - i,
        {
            v.push(Cell::new(i as u32));
            i = i + 1;
        }
        let rb = RingBuffer {
            n: size - 1,
            v,
            enq_pos: 0,
            deq_pos: 0,
            users: Users::new(1, 1),
            lg: Ghost(k),
            enq_count: Ghost(0nat),
            deq_count: Ghost(0nat),
            sent: Ghost(Seq::empty()),
            rcvd: Ghost(Seq::empty()),
        };
        proof {
            assert(rb.rcvd@ =~= rb.sent@.take(0));
            let nn = rb.v@.len() as int;
            assert forall|p: int| 0 <= p < nn implies #[trigger] rb.seq_at(p) == p
                % wrap_modulus() by {
                lemma_small_mod(p as nat, nn as nat);
                lemma_small_mod(p as nat, wrap_modulus() as nat);
            };
            lemma_small_mod(0nat, wrap_modulus() as nat);
            assert(rb@ =~= Seq::<T>::empty());
        }
        (rb, Sender {  }, Receiver {  })
    }

    /// The stored index mask: the slot count minus one. This is one less than
    /// the number of slots that can actually be filled; it is reported as-is.
    pub fn capacity(&self) -> (r: usize)
        requires
            self.wf(),
        ensures
            r == self.slot_count() - 1,
    {
        self.n
    }

    /// Record one more live producer handle. Called when a producer handle is
    /// cloned, which is a contract violation unless at least one producer
    /// handle is still live.
    pub(crate) fn register_sender(&mut self)
        requires
            0 < old(self).senders_live() < u32::MAX,
        ensures
            final(self).senders_live() == old(self).senders_live() + 1,
            final(self).receivers_live() == old(self).receivers_live(),
            final(self).wf() == old(self).wf(),
            final(self)@ == old(self)@,
            final(self).slot_count() == old(self).slot_count(),
            final(self).sends() == old(self).sends(),
            final(self).recvs() == old(self).recvs(),
            final(self).sent_log() == old(self).sent_log(),
            final(self).recv_log() == old(self).recv_log(),
    {
        self.users.senders = self.users.senders + 1;
        proof {
            Self::lemma_registry_irrelevant(*old(self), *self);
        }
    }

    /// Record that a producer handle was retired. Retiring one while none is
    /// recorded live is a contract violation.
    pub(crate) fn unregister_sender(&mut self)
        requires
            old(self).senders_live() > 0,
        ensures
            final(self).senders_live() == old(self).senders_live() - 1,
            final(self).receivers_live() == old(self).receivers_live(),
            final(self).wf() == old(self).wf(),
            final(self)@ == old(self)@,
            final(self).slot_count() == old(self).slot_count(),
            final(self).sends() == old(self).sends(),
            final(self).recvs() == old(self).recvs(),
            final(self).sent_log() == old(self).sent_log(),
            final(self).recv_log() == old(self).recv_log(),
    {
        self.users.senders = self.users.senders - 1;
        proof {
            Self::lemma_registry_irrelevant(*old(self), *self);
        }
    }

    /// Record one more live consumer handle. Called when a consumer handle is
    /// cloned, which is a contract violation unless at least one consumer
    /// handle is still live.
    pub(crate) fn register_receiver(&mut self)
        requires
            0 < old(self).receivers_live() < u32::MAX,
        ensures
            final(self).receivers_live() == old(self).receivers_live() + 1,
            final(self).senders_live() == old(self).senders_live(),
            final(self).wf() == old(self).wf(),
            final(self)@ == old(self)@,
            final(self).slot_count() == old(self).slot_count(),
            final(self).sends() == old(self).sends(),
            final(self).recvs() == old(self).recvs(),
            final(self).sent_log() == old(self).sent_log(),
            final(self).recv_log() == old(self).recv_log(),
    {
        self.users.receivers = self.users.receivers + 1;
        proof {
            Self::lemma_registry_irrelevant(*old(self), *self);
        }
    }

    /// Record that a consumer handle was retired. Retiring one while none is
    /// recorded live is a contract violation.
    pub(crate) fn unregister_receiver(&mut self)
        requires
            old(self).receivers_live() > 0,
        ensures
            final(self).receivers_live() == old(self).receivers_live() - 1,
            final(self).senders_live() == old(self).senders_live(),
            final(self).wf() == old(self).wf(),
            final(self)@ == old(self)@,
            final(self).slot_count() == old(self).slot_count(),
            final(self).sends() == old(self).sends(),
            final(self).recvs() == old(self).recvs(),
            final(self).sent_log() == old(self).sent_log(),
            final(self).recv_log() == old(self).recv_log(),
    {
        self.users.receivers = self.users.receivers - 1;
        proof {
            Self::lemma_registry_irrelevant(*old(self), *self);
        }
    }

    /// Retire the buffer itself. Disposing it while any handle is still
    /// recorded live is a contract violation: the registry must have been
    /// drained to zero on both sides first.
    pub fn dispose(self)
        requires
            self.senders_live() == 0,
            self.receivers_live() == 0,
    {
    }

    /// Live producer handles currently recorded in the registry.
    pub fn live_senders(&self) -> (r: u32)
        ensures
            r == self.senders_live(),
    {
        self.users.senders
    }

    /// Live consumer handles currently recorded in the registry.
    pub fn live_receivers(&self) -> (r: u32)
        ensures
            r == self.receivers_live(),
    {
        self.users.receivers
    }

    /// Claim the write cursor's position and publish `d` there, if the slot
    /// owning that position is free; report `false` without changing anything
    /// if the slot still holds an unconsumed value, i.e. if the buffer is
    /// full. A successful send claims absolute position `old(self).sends()`
    /// and appends `d` to the queued values.
    pub(crate) fn send(&mut self, d: T) -> (r: bool)
        requires
            old(self).wf(),
        ensures
            final(self).wf(),
            final(self).slot_count() == old(self).slot_count(),
            final(self).recvs() == old(self).recvs(),
            final(self).senders_live() == old(self).senders_live(),
            final(self).receivers_live() == old(self).receivers_live(),
            final(self).recv_log() == old(self).recv_log(),
            r <==> old(self)@.len() < old(self).slot_count(),
            r ==> final(self)@ == old(self)@.push(d) && final(self).sends() == old(self).sends()
                + 1 && final(self).sent_log() == old(self).sent_log().push(d),
            !r ==> final(self)@ == old(self)@ && final(self).sends() == old(self).sends()
                && final(self).sent_log() == old(self).sent_log(),
    {
        let ghost m: int = wrap_modulus();
        let ghost nn: int = self.v@.len() as int;
        let ghost e: int = self.enq_count@ as int;
        let ghost d0: int = self.deq_count@ as int;

        let pos = self.enq_pos;
        let idx: usize = (pos as usize) & self.n;
        proof {
            self.lemma_mask_index(pos);
            lemma_mod_in_m32(e, nn, self.lg@);
        }
        let seq_no = self.v[idx].pos;
        let diff = seq_no.wrapping_sub(pos);
        proof {
            lemma_wrapping_sub_is_mod(seq_no, pos);
            if e < d0 + nn {
                // The slot owning position `e` is free: its sequence number
                // equals the cursor.
                assert(self.seq_at(e) == e % m);
                lemma_sub_mod_noop(e, e, m);
                lemma_small_mod(0nat, m as nat);
                assert(diff == 0);
            } else {
                // Full: the slot owning position `e` still holds the value
                // published at position `e - nn`, which has not been consumed.
                assert(self.seq_at(d0) == (d0 + 1) % m);
                lemma_mod_multiples_vanish(1, d0, nn);
                assert(idx as int == d0 % nn);
                lemma_sub_mod_noop(d0 + 1, e, m);
                lemma_mod_multiples_vanish(1, 1 - nn, m);
                lemma_small_mod((m + 1 - nn) as nat, m as nat);
                assert(diff as int == m + 1 - nn);
            }
        }
        if diff == 0 {
            proof {
                // `diff == 0` rules the full case out.
                assert(e < d0 + nn);
            }
            let newpos = pos.wrapping_add(1);
            self.enq_pos = newpos;
            self.v[idx] = Cell { pos: newpos, data: d };
            self.enq_count = Ghost((e + 1) as nat);
            self.sent = Ghost(self.sent@.push(d));
            proof {
                lemma_wrapping_add_is_mod(pos, 1);
                lemma_add_mod_noop_right(1, e, m);
                assert(newpos as int == (e + 1) % m);
                assert(self.rcvd@ =~= self.sent@.take(d0));
                assert forall|p: int| d0 <= p < e + 1 implies #[trigger] self.data_at(p)
                    == self.sent@[p] by {
                    if p < e {
                        lemma_mod_distinct(p, e, nn);
                        assert(old(self).data_at(p) == old(self).sent@[p]);
                    }
                };
                assert forall|p: int| d0 <= p < e + 1 implies #[trigger] self.seq_at(p) == (p + 1)
                    % m by {
                    if p < e {
                        lemma_mod_distinct(p, e, nn);
                        assert(old(self).seq_at(p) == (p + 1) % m);
                    }
                };
                assert forall|p: int| e + 1 <= p < d0 + nn implies #[trigger] self.seq_at(p) == p
                    % m by {
                    lemma_mod_distinct(e, p, nn);
                    assert(old(self).seq_at(p) == p % m);
                };
                assert forall|i: int| 0 <= i < old(self)@.len() implies self@[i]
                    == old(self)@[i] by {
                    lemma_mod_distinct(d0 + i, e, nn);
                    assert(old(self).data_at(d0 + i) == old(self)@[i]);
                };
                assert(self@ =~= old(self)@.push(d));
            }
            true
        } else {
            proof {
                // A zero difference is the only way the slot is claimable;
                // the buffer is full.
                assert(e == d0 + nn);
                assert(old(self)@.len() == old(self).slot_count());
            }
            false
        }
    }

    /// Claim the read cursor's position and take the value published there,
    /// if one is; report `Err(false)` without changing anything if no value
    /// is published at that position, i.e. if the buffer is empty. A
    /// successful recv claims absolute position `old(self).recvs()`, returns
    /// the oldest queued value, and marks the slot free for the send that
    /// will target absolute position `old(self).recvs() + slot_count()`.
    pub(crate) fn recv(&mut self) -> (r: Result<T, bool>)
        requires
            old(self).wf(),
        ensures
            final(self).wf(),
            final(self).slot_count() == old(self).slot_count(),
            final(self).sends() == old(self).sends(),
            final(self).senders_live() == old(self).senders_live(),
            final(self).receivers_live() == old(self).receivers_live(),
            final(self).sent_log() == old(self).sent_log(),
            old(self)@.len() > 0 ==> r == Ok::<T, bool>(old(self)@[0]) && final(self)@
                == old(self)@.skip(1) && final(self).recvs() == old(self).recvs() + 1
                && final(self).recv_log() == old(self).recv_log().push(old(self)@[0]),
            old(self)@.len() == 0 ==> r == Err::<T, bool>(false) && final(self)@ == old(self)@
                && final(self).recvs() == old(self).recvs() && final(self).recv_log()
                == old(self).recv_log(),
    {
        let ghost m: int = wrap_modulus();
        let ghost nn: int = self.v@.len() as int;
        let ghost e: int = self.enq_count@ as int;
        let ghost d0: int = self.deq_count@ as int;

        let pos = self.deq_pos;
        let idx: usize = (pos as usize) & self.n;
        proof {
            self.lemma_mask_index(pos);
            lemma_mod_in_m32(d0, nn, self.lg@);
        }
        let seq_no = self.v[idx].pos;
        let expected = pos.wrapping_add(1);
        let diff = seq_no.wrapping_sub(expected);
        proof {
            lemma_wrapping_add_is_mod(pos, 1);
            lemma_add_mod_noop_right(1, d0, m);
            assert(expected as int == (d0 + 1) % m);
            lemma_wrapping_sub_is_mod(seq_no, expected);
            if d0 < e {
                // A value is published at position `d0`.
                assert(self.seq_at(d0) == (d0 + 1) % m);
                lemma_sub_mod_noop(d0 + 1, d0 + 1, m);
                lemma_small_mod(0nat, m as nat);
                assert(diff == 0);
            } else {
                // Empty: the slot owning position `d0` is still waiting for
                // the send that will claim it.
                assert(self.seq_at(d0) == d0 % m);
                lemma_sub_mod_noop(d0, d0 + 1, m);
                lemma_mod_multiples_vanish(1, -1, m);
                lemma_small_mod((m - 1) as nat, m as nat);
                assert(diff as int == m - 1);
            }
        }
        if diff == 0 {
            proof {
                assert(d0 < e);
            }
            let d = self.v[idx].data;
            let newpos = pos.wrapping_add(1);
            self.deq_pos = newpos;
            let freed = pos.wrapping_add(self.n as u32).wrapping_add(1);
            self.v[idx] = Cell { pos: freed, data: d };
            self.deq_count = Ghost((d0 + 1) as nat);
            self.rcvd = Ghost(self.rcvd@.push(d));
            proof {
                assert(old(self).data_at(d0) == old(self).sent@[d0]);
                assert(d == old(self).sent@[d0]);
                assert(self.rcvd@ =~= self.sent@.take(d0 + 1));
                assert forall|p: int| d0 + 1 <= p < e implies #[trigger] self.data_at(p)
                    == self.sent@[p] by {
                    lemma_mod_distinct(d0, p, nn);
                    assert(old(self).data_at(p) == old(self).sent@[p]);
                };
                assert(newpos as int == (d0 + 1) % m);
                // The freed slot now awaits the send targeting `d0 + nn`.
                lemma_wrapping_add_is_mod(pos, self.n as u32);
                lemma_add_mod_noop_right(nn - 1, d0, m);
                let mid = u32_specs::wrapping_add(pos, self.n as u32);
                assert(mid as int == (d0 + nn - 1) % m);
                lemma_wrapping_add_is_mod(mid, 1);
                lemma_add_mod_noop_right(1, d0 + nn - 1, m);
                assert(freed as int == (d0 + nn) % m);
                lemma_mod_multiples_vanish(1, d0, nn);
                assert((d0 + nn) % nn == d0 % nn);
                assert forall|p: int| d0 + 1 <= p < e implies #[trigger] self.seq_at(p) == (p + 1)
                    % m by {
                    lemma_mod_distinct(d0, p, nn);
                    assert(old(self).seq_at(p) == (p + 1) % m);
                };
                assert forall|p: int| e <= p < d0 + 1 + nn implies #[trigger] self.seq_at(p) == p
                    % m by {
                    if p < d0 + nn {
                        lemma_mod_distinct(d0, p, nn);
                        assert(old(self).seq_at(p) == p % m);
                    } else {
                        assert(p == d0 + nn);
                        assert(self.seq_at(p) == freed as int);
                    }
                };
                assert(d == old(self)@[0]);
                assert forall|i: int| 0 <= i < self@.len() implies self@[i] == old(self)@[i
                    + 1] by {
                    lemma_mod_distinct(d0, d0 + 1 + i, nn);
                    assert(old(self).data_at(d0 + 1 + i) == old(self)@[i + 1]);
                };
                assert(self@ =~= old(self)@.skip(1));
            }
            Ok(d)
        } else {
            proof {
                assert(d0 == e);
            }
            Err(false)
        }
    }

    /// True iff no value is currently published at the read cursor's
    /// position, i.e. iff the queue holds no value.
    pub fn empty(&self) -> (r: bool)
        requires
            self.wf(),
        ensures
            r <==> self@.len() == 0,
    {
        let ghost m: int = wrap_modulus();
        let ghost nn: int = self.v@.len() as int;
        let ghost e: int = self.enq_count@ as int;
        let ghost d: int = self.deq_count@ as int;

        let pos = self.deq_pos;
        let idx: usize = (pos as usize) & self.n;
        proof {
            self.lemma_mask_index(pos);
            lemma_mod_in_m32(d, nn, self.lg@);
        }
        let seq_no = self.v[idx].pos;
        let expected = pos.wrapping_add(1);
        let diff = seq_no.wrapping_sub(expected);
        proof {
            lemma_wrapping_add_is_mod(pos, 1);
            lemma_add_mod_noop_right(1, d, m);
            lemma_wrapping_sub_is_mod(seq_no, expected);
            if d < e {
                assert(self.seq_at(d) == (d + 1) % m);
                lemma_sub_mod_noop(d + 1, d + 1, m);
                assert(diff == 0);
            } else {
                assert(self.seq_at(d) == d % m);
                lemma_sub_mod_noop(d, d + 1, m);
                lemma_mod_multiples_vanish(1, -1, m);
                lemma_small_mod((m - 1) as nat, m as nat);
                assert(diff as int == m - 1);
            }
        }
        diff != 0
    }
}

/// Occupancy law: in every well-formed state the number of queued values is
/// exactly the successful sends minus the successful recvs, it never exceeds
/// the slot count, and the buffer is empty exactly when the two totals agree.
/// In particular, once a workload has drained the buffer, its total
/// successful sends equal its total successful recvs.
pub proof fn lemma_occupancy<T>(b: &RingBuffer<T>)
    requires
        b.wf(),
    ensures
        b@.len() + b.recvs() == b.sends(),
        b@.len() <= b.slot_count(),
        b@.len() == 0 <==> b.sends() == b.recvs(),
{
}

/// Uniqueness of claimed write positions: a successful send claims absolute
/// position `sends()` and advances that counter, and no operation ever
/// decreases it. So if one successful send takes a buffer from `b0` to `b1`,
/// and a later successful send starts from any state `b2` reached from `b1`,
/// the two sends claim distinct absolute positions — and hence distinct
/// claims never target the same slot-write.
pub proof fn lemma_send_claims_distinct<T>(b0: &RingBuffer<T>, b1: &RingBuffer<T>, b2: &RingBuffer<T>)
    requires
        b1.sends() == b0.sends() + 1,
        b2.sends() >= b1.sends(),
    ensures
        b2.sends() != b0.sends(),
{
}

/// Uniqueness of claimed read positions: the mirror of
/// [`lemma_send_claims_distinct`] for successful recvs, which claim absolute
/// position `recvs()` and advance that counter.
pub proof fn lemma_recv_claims_distinct<T>(b0: &RingBuffer<T>, b1: &RingBuffer<T>, b2: &RingBuffer<T>)
    requires
        b1.recvs() == b0.recvs() + 1,
        b2.recvs() >= b1.recvs(),
    ensures
        b2.recvs() != b0.recvs(),
{
}

/// Global order and round-trip law: in every well-formed state the history
/// logs record one value per claimed position, the values consumed so far are
/// exactly the first `recvs()` values produced, in production order — so for
/// every `k`, the `k`-th successful recv of a run returns precisely the value
/// the `k`-th successful send accepted, unchanged — and the values still
/// queued are exactly the produced values not yet consumed, oldest first.
pub proof fn lemma_fifo_history<T>(b: &RingBuffer<T>)
    requires
        b.wf(),
    ensures
        b.sent_log().len() == b.sends(),
        b.recv_log().len() == b.recvs(),
        b.recv_log() == b.sent_log().take(b.recvs() as int),
        b@ == b.sent_log().skip(b.recvs() as int),
{
    assert(b@ =~= b.sent_log().skip(b.recvs() as int));
}

} // verus!
