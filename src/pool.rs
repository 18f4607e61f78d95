use vstd::prelude::*;

use crate::backend::{addrs_of, Backend, ConfigError};

verus! {

/// The backends in configuration order, and the cursor that names the next one
/// to hand out.
pub struct BackendPool {
    backends: Vec<Backend>,
    cursor: usize,
}

/// The pool seen as its addresses and its cursor.
pub struct PoolView {
    pub addrs: Seq<Seq<u8>>,
    pub cursor: nat,
}

impl PoolView {
    pub open spec fn wf(self) -> bool {
        self.addrs.len() > 0 && self.cursor < self.addrs.len()
    }

    /// What the next selection returns.
    pub open spec fn current(self) -> Seq<u8> {
        self.addrs[self.cursor as int]
    }

    /// The pool after one selection.
    pub open spec fn advanced(self) -> PoolView {
        PoolView { addrs: self.addrs, cursor: ((self.cursor + 1) % self.addrs.len()) as nat }
    }

    /// The pool after `n` selections.
    pub open spec fn after(self, n: nat) -> PoolView
        decreases n,
    {
        if n == 0 {
            self
        } else {
            self.after((n - 1) as nat).advanced()
        }
    }

    /// The `i`-th selection (counting from 0) made from this pool.
    pub open spec fn pick(self, i: nat) -> Seq<u8> {
        self.after(i).current()
    }
}

impl View for BackendPool {
    type V = PoolView;

    closed spec fn view(&self) -> PoolView {
        PoolView { addrs: addrs_of(self.backends@), cursor: self.cursor as nat }
    }
}

impl BackendPool {
    pub open spec fn wf(&self) -> bool {
        self@.wf()
    }

    /// A pool over `addrs` whose cursor stands at the first backend; an empty
    /// list is refused.
    pub fn new(addrs: Vec<Backend>) -> (r: Result<BackendPool, ConfigError>)
        ensures
            addrs@.len() == 0 <==> r is Err,
            match r {
                Ok(p) => {
                    &&& p.wf()
                    &&& p@.addrs == addrs_of(addrs@)
                    &&& p@.cursor == 0
                    &&& forall|i: int| 0 <= i < addrs@.len() ==> #[trigger] p@.addrs[i] == addrs@[i]@
                },
                Err(e) => e == ConfigError::EmptyPool,
            },
    {
        if addrs.len() == 0 {
            Err(ConfigError::EmptyPool)
        } else {
            Ok(BackendPool { backends: addrs, cursor: 0 })
        }
    }

    pub fn len(&self) -> (r: usize)
        requires
            self.wf(),
        ensures
            r == self@.addrs.len(),
            r > 0,
    {
        self.backends.len()
    }

    /// The position of the backend that the next selection returns.
    pub fn cursor(&self) -> (r: usize)
        requires
            self.wf(),
        ensures
            r == self@.cursor,
    {
        self.cursor
    }

    /// Returns the backend under the cursor and moves the cursor one place on,
    /// back to the first backend after the last.
    pub fn select(&mut self) -> (r: Backend)
        requires
            old(self).wf(),
        ensures
            final(self).wf(),
            r@ == old(self)@.current(),
            final(self)@ == old(self)@.advanced(),
    {
        let i = self.cursor;
        assert(addrs_of(self.backends@)[i as int] == self.backends@[i as int]@);
        let r = self.backends[i].duplicate();
        let n = self.backends.len();
        self.cursor = if i + 1 == n {
            0
        } else {
            i + 1
        };
        proof {
            if i + 1 < n {
                vstd::arithmetic::div_mod::lemma_small_mod((i + 1) as nat, n as nat);
            } else {
                vstd::arithmetic::div_mod::lemma_mod_self_0(n as int);
            }
        }
        r
    }
}

/// How many of the first `n` selections from `p` land on position `j`.
pub open spec fn hits(p: PoolView, j: int, n: nat) -> nat
    decreases n,
{
    if n == 0 {
        0
    } else {
        hits(p, j, (n - 1) as nat) + if p.after((n - 1) as nat).cursor == j {
            1nat
        } else {
            0nat
        }
    }
}

/// After `n` selections the addresses are unchanged and the cursor has moved
/// `n` places on, modulo the pool size.
pub proof fn lemma_after(p: PoolView, n: nat)
    requires
        p.wf(),
    ensures
        p.after(n).wf(),
        p.after(n).addrs == p.addrs,
        p.after(n).cursor == (p.cursor + n) as int % (p.addrs.len() as int),
    decreases n,
{
    let k = p.addrs.len() as int;
    if n == 0 {
        vstd::arithmetic::div_mod::lemma_small_mod(p.cursor, p.addrs.len());
    } else {
        lemma_after(p, (n - 1) as nat);
        let a = p.cursor + n - 1;
        vstd::arithmetic::div_mod::lemma_add_mod_noop_right(1, a, k);
        vstd::arithmetic::div_mod::lemma_mod_pos_bound(a + 1, k);
    }
}

/// Wraparound: once every backend of a pool of size `K` has been handed out,
/// the next selection returns the same backend as the first.
pub proof fn lemma_round_robin_wraps(p: PoolView)
    requires
        p.wf(),
    ensures
        p.after(p.addrs.len()) == p,
        p.pick(p.addrs.len()) == p.pick(0),
{
    let k = p.addrs.len() as int;
    lemma_after(p, p.addrs.len());
    vstd::arithmetic::div_mod::lemma_mod_add_multiples_vanish(p.cursor as int, k);
    vstd::arithmetic::div_mod::lemma_small_mod(p.cursor, p.addrs.len());
}

/// No repeats before exhaustion: any `n <= K` consecutive selections from a
/// pool of size `K` return backends at `n` distinct positions, going round the
/// pool in configuration order from the cursor.
pub proof fn lemma_round_robin_no_repeats(p: PoolView, n: nat)
    requires
        p.wf(),
        n <= p.addrs.len(),
    ensures
        forall|i: nat|
            i < n ==> #[trigger] p.pick(i) == p.addrs[(p.cursor + i) as int % (
            p.addrs.len() as int)],
        forall|i: nat, l: nat|
            i < l < n ==> #[trigger] p.after(i).cursor != #[trigger] p.after(l).cursor,
{
    let k = p.addrs.len() as int;
    assert forall|i: nat| i < n implies #[trigger] p.pick(i) == p.addrs[(p.cursor + i) as int % k] by {
        lemma_after(p, i);
    }
    assert forall|i: nat, l: nat| i < l < n implies #[trigger] p.after(i).cursor
        != #[trigger] p.after(l).cursor by {
        lemma_after(p, i);
        lemma_after(p, l);
        let x = p.cursor + i;
        let y = p.cursor + l;
        vstd::arithmetic::div_mod::lemma_fundamental_div_mod(x as int, k);
        vstd::arithmetic::div_mod::lemma_fundamental_div_mod(y as int, k);
        let qx = x as int / k;
        let qy = y as int / k;
        if x as int % k == y as int % k {
            assert(false) by (nonlinear_arith)
                requires
                    x == qx * k + x as int % k,
                    y == qy * k + y as int % k,
                    x as int % k == y as int % k,
                    0 < y - x < k,
            ;
        }
    }
}

/// Of `n` selections from a fresh pool of size `K`, the backend at position
/// `j` is returned `n / K` times, plus one when `j < n % K`.
pub proof fn lemma_hits_from_start(p: PoolView, j: int, n: nat)
    requires
        p.wf(),
        p.cursor == 0,
        0 <= j < p.addrs.len(),
    ensures
        hits(p, j, n) == (n as int) / (p.addrs.len() as int) + if j < (n as int) % (p.addrs.len() as int) {
            1int
        } else {
            0int
        },
        hits(p, j, n) == (n as int) / (p.addrs.len() as int) || (hits(p, j, n) == (n as int) / (p.addrs.len() as int) + 1 && (n as int) % (p.addrs.len() as int) != 0),
    decreases n,
{
    let k = p.addrs.len() as int;
    if n == 0 {
        vstd::arithmetic::div_mod::lemma_small_mod(0, p.addrs.len());
    } else {
        let m = (n - 1) as int;
        lemma_hits_from_start(p, j, (n - 1) as nat);
        lemma_after(p, (n - 1) as nat);
        vstd::arithmetic::div_mod::lemma_fundamental_div_mod(m, k);
        vstd::arithmetic::div_mod::lemma_mod_pos_bound(m, k);
        let q = m / k;
        let r = m % k;
        if r + 1 < k {
            vstd::arithmetic::div_mod::lemma_fundamental_div_mod_converse(m + 1, k, q, r + 1);
        } else {
            assert((q + 1) * k + 0 == m + 1) by (nonlinear_arith)
                requires
                    m == q * k + r,
                    r + 1 == k,
            ;
            vstd::arithmetic::div_mod::lemma_fundamental_div_mod_converse(m + 1, k, q + 1, 0);
        }
    }
}

/// The selections from `p` are those of a fresh pool over the same addresses,
/// taken from its selection number `p.cursor` on.
proof fn lemma_hits_shift(p: PoolView, j: int, n: nat)
    requires
        p.wf(),
    ensures
        hits(p, j, n) == hits(PoolView { addrs: p.addrs, cursor: 0 }, j, p.cursor + n) - hits(
            PoolView { addrs: p.addrs, cursor: 0 },
            j,
            p.cursor,
        ),
    decreases n,
{
    let q = PoolView { addrs: p.addrs, cursor: 0 };
    if n > 0 {
        lemma_hits_shift(p, j, (n - 1) as nat);
        lemma_after(p, (n - 1) as nat);
        lemma_after(q, (p.cursor + n - 1) as nat);
    }
}

/// Fairness: of any `n` consecutive selections from a pool of size `K`, each
/// backend (by its position `j`) is returned `floor(n / K)` or `ceil(n / K)`
/// times.
pub proof fn lemma_round_robin_fair(p: PoolView, j: int, n: nat)
    requires
        p.wf(),
        0 <= j < p.addrs.len(),
    ensures
        hits(p, j, n) == (n as int) / (p.addrs.len() as int) || (hits(p, j, n) == (n as int) / (
        p.addrs.len() as int) + 1 && (n as int) % (p.addrs.len() as int) != 0),
{
    let k = p.addrs.len() as int;
    let c = p.cursor as int;
    let q = PoolView { addrs: p.addrs, cursor: 0 };
    lemma_hits_shift(p, j, n);
    lemma_hits_from_start(q, j, p.cursor);
    lemma_hits_from_start(q, j, p.cursor + n);
    vstd::arithmetic::div_mod::lemma_fundamental_div_mod(c, k);
    vstd::arithmetic::div_mod::lemma_mod_pos_bound(c, k);
    vstd::arithmetic::div_mod::lemma_fundamental_div_mod(n as int, k);
    vstd::arithmetic::div_mod::lemma_mod_pos_bound(n as int, k);
    let a = c / k;
    let r = c % k;
    let b = (n as int) / k;
    let t = (n as int) % k;
    if r + t < k {
        assert(c + n == (a + b) * k + (r + t)) by (nonlinear_arith)
            requires
                c == a * k + r,
                n == b * k + t,
        ;
        vstd::arithmetic::div_mod::lemma_fundamental_div_mod_converse(c + n, k, a + b, r + t);
    } else {
        assert(c + n == (a + b + 1) * k + (r + t - k)) by (nonlinear_arith)
            requires
                c == a * k + r,
                n == b * k + t,
        ;
        vstd::arithmetic::div_mod::lemma_fundamental_div_mod_converse(
            c + n,
            k,
            a + b + 1,
            r + t - k,
        );
    }
}

} // verus!
