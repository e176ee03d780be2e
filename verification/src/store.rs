//! Shared state store: the named throttles and the single fast clock,
//! mutated only by decoded updates. The surrounding process guards one
//! store instance with a lock; every operation here is synchronous and
//! touches memory only.

use vstd::prelude::*;
use crate::dcc::{clamp_velocity, json_plain, DccTime, Throttle, ThrottleView, TimeScale};
use crate::parse::{Update, UpdateView};

verus! {

/// Index of the throttle with the given address, scanning from `i`.
pub open spec fn find_from(ts: Seq<ThrottleView>, addr: Seq<char>, i: int) -> Option<int>
    decreases ts.len() - i,
{
    if i < 0 || i >= ts.len() {
        None
    } else if ts[i].address == addr {
        Some(i)
    } else {
        find_from(ts, addr, i + 1)
    }
}

/// Index of the throttle with the given address.
pub open spec fn find_addr(ts: Seq<ThrottleView>, addr: Seq<char>) -> Option<int> {
    find_from(ts, addr, 0)
}

/// Mathematical value of the store.
#[verifier::ext_equal]
pub struct StoreView {
    pub throttles: Seq<ThrottleView>,
    pub timestamp: u64,
    pub scale: Seq<char>,
}

/// Every throttle well-formed; no two throttles share an address.
pub open spec fn store_wf(sv: StoreView) -> bool {
    &&& forall|i: int|
        0 <= i < sv.throttles.len() ==> crate::dcc::wf_view(#[trigger] sv.throttles[i])
    &&& forall|i: int, j: int|
        0 <= i < j < sv.throttles.len() ==> sv.throttles[i].address != sv.throttles[j].address
}

/// How one decoded update moves the store: a function, velocity or
/// direction update rewrites exactly the throttle named `addr`; a clock
/// update rewrites exactly the clock.
pub open spec fn apply_rel(pre: StoreView, post: StoreView, u: UpdateView, addr: Seq<char>) -> bool {
    let i = find_addr(pre.throttles, addr)->Some_0;
    let ts0 = pre.throttles;
    let ts1 = post.throttles;
    &&& ts1.len() == ts0.len()
    &&& forall|j: int| 0 <= j < ts0.len() && j != i ==> ts1[j] == ts0[j]
    &&& ts1[i].address == ts0[i].address
    &&& match u {
        UpdateView::Function { num, is_on } => {
            &&& ts1[i].velocity == ts0[i].velocity
            &&& ts1[i].direction == ts0[i].direction
            &&& (forall|k: u8| #[trigger]
                ts1[i].functions.contains(k) <==> (if is_on {
                    ts0[i].functions.contains(k) || k == num
                } else {
                    ts0[i].functions.contains(k) && k != num
                }))
            &&& post.timestamp == pre.timestamp
            &&& post.scale == pre.scale
        },
        UpdateView::Velocity(v) => {
            &&& ts1[i].velocity == clamp_velocity(v as int)
            &&& ts1[i].direction == ts0[i].direction
            &&& ts1[i].functions == ts0[i].functions
            &&& post.timestamp == pre.timestamp
            &&& post.scale == pre.scale
        },
        UpdateView::Direction(d) => {
            &&& ts1[i].velocity == ts0[i].velocity
            &&& ts1[i].direction == d
            &&& ts1[i].functions == ts0[i].functions
            &&& post.timestamp == pre.timestamp
            &&& post.scale == pre.scale
        },
        UpdateView::Time { timestamp, scale } => {
            &&& ts1[i] == ts0[i]
            &&& post.timestamp == timestamp
            &&& post.scale == scale
        },
    }
}

/// The in-memory store: every known throttle and the shared clock.
pub struct Store {
    throttles: Vec<Throttle>,
    time: DccTime,
}

impl View for Store {
    type V = StoreView;

    closed spec fn view(&self) -> StoreView {
        StoreView {
            throttles: self.throttles.deep_view(),
            timestamp: self.time.timestamp,
            scale: self.time.scale@,
        }
    }
}

impl Store {
    pub open spec fn throttles(&self) -> Seq<ThrottleView> {
        self@.throttles
    }

    pub open spec fn timestamp(&self) -> u64 {
        self@.timestamp
    }

    pub open spec fn scale(&self) -> Seq<char> {
        self@.scale
    }

    pub open spec fn wf(&self) -> bool {
        store_wf(self@)
    }

    /// A fresh store holding one throttle for `address` and the default
    /// clock.
    pub fn new(address: String) -> (s: Store)
        requires
            json_plain(address@),
        ensures
            s.wf(),
            s.throttles().len() == 1,
            s.throttles()[0].address == address@,
            s.throttles()[0].velocity == 0,
            s.throttles()[0].direction == crate::dcc::Direction::Forward,
            s.throttles()[0].functions == Seq::<u8>::empty(),
            s.timestamp() == 0,
            s.scale() == "1.0"@,
    {
        let mut throttles: Vec<Throttle> = Vec::new();
        throttles.push(Throttle::new(address));
        let s = Store { throttles, time: DccTime::default() };
        proof {
            assert(s.throttles() =~= seq![s.throttles@[0]@]);
        }
        s
    }

    /// Finds the position of the throttle named `address`.
    pub fn find(&self, address: &str) -> (r: Option<usize>)
        ensures
            match r {
                Some(i) => find_addr(self.throttles(), address@) == Some(i as int) && i
                    < self.throttles().len(),
                None => find_addr(self.throttles(), address@) is None,
            },
    {
        let n = self.throttles.len();
        let mut i: usize = 0;
        while i < n
            invariant
                n == self.throttles@.len(),
                i <= n,
                self.throttles().len() == n,
                find_addr(self.throttles(), address@) == find_from(
                    self.throttles(),
                    address@,
                    i as int,
                ),
            decreases n - i,
        {
            let t = &self.throttles[i];
            if t.address_eq(address) {
                return Some(i);
            }
            i += 1;
        }
        None
    }

    /// Whether a throttle named `address` exists.
    pub fn has_throttle(&self, address: &str) -> (r: bool)
        ensures
            r == (find_addr(self.throttles(), address@) is Some),
    {
        self.find(address).is_some()
    }

    /// Applies one decoded update under the caller's lock: a function,
    /// velocity or direction update mutates exactly the throttle named
    /// `address`; a clock update mutates exactly the clock. The address
    /// must already be known — throttles are never created here.
    pub fn apply(&mut self, update: &Update, address: &str)
        requires
            old(self).wf(),
            find_addr(old(self).throttles(), address@) is Some,
        ensures
            final(self).wf(),
            apply_rel(old(self)@, final(self)@, update@, address@),
    {
        match update {
            Update::Time { timestamp, scale } => {
                let ghost i = find_addr(old(self).throttles(), address@)->Some_0;
                proof {
                    lemma_find_from_props(old(self).throttles(), address@, 0);
                }
                self.time.update(*timestamp, scale.clone());
                proof {
                    assert(final(self).throttles() =~~= old(self).throttles());
                }
            },
            _ => {
                let i = match self.find(address) {
                    Some(i) => i,
                    None => {
                        proof {
                            assert(false);
                        }
                        return ;
                    },
                };
                let mut t = self.throttles[i].clone();
                proof {
                    lemma_find_from_props(old(self).throttles(), address@, 0);
                    assert(t@ == old(self).throttles()[i as int]);
                }
                match update {
                    Update::Function { num, is_on } => t.set_func(*num, *is_on),
                    Update::Velocity(v) => t.set_vel(*v),
                    Update::Direction(d) => t.set_dir(*d),
                    Update::Time { .. } => {},
                }
                self.throttles.set(i, t);
                proof {
                    let ts0 = old(self).throttles();
                    let ts1 = final(self).throttles();
                    assert(ts1 =~~= ts0.update(i as int, final(self).throttles@[i as int]@));
                }
            },
        }
    }

    /// A consistent copy of the throttle named `address`, for
    /// serialization outside the lock.
    pub fn snapshot(&self, address: &str) -> (t: Throttle)
        requires
            find_addr(self.throttles(), address@) is Some,
        ensures
            t@ == self.throttles()[find_addr(self.throttles(), address@)->Some_0],
    {
        let i = match self.find(address) {
            Some(i) => i,
            None => {
                proof {
                    assert(false);
                }
                return Throttle::new(String::new());
            },
        };
        self.throttles[i].clone()
    }

    /// The clock's current counter and scale text.
    pub fn clock(&self) -> (r: (u64, TimeScale))
        ensures
            r.0 == self.timestamp(),
            r.1@ == self.scale(),
    {
        (self.time.timestamp, self.time.scale.clone())
    }
}

/// Applying an update never unseats an address: whatever was found
/// before is found, at the same position, after.
pub proof fn lemma_find_addr_stable(
    ts0: Seq<ThrottleView>,
    ts1: Seq<ThrottleView>,
    addr: Seq<char>,
)
    requires
        ts1.len() == ts0.len(),
        forall|j: int| 0 <= j < ts0.len() ==> ts1[j].address == ts0[j].address,
    ensures
        find_addr(ts1, addr) == find_addr(ts0, addr),
{
    lemma_find_from_equal(ts0, ts1, addr, 0);
}

proof fn lemma_find_from_equal(
    ts0: Seq<ThrottleView>,
    ts1: Seq<ThrottleView>,
    addr: Seq<char>,
    i: int,
)
    requires
        ts1.len() == ts0.len(),
        forall|j: int| 0 <= j < ts0.len() ==> ts1[j].address == ts0[j].address,
    ensures
        find_from(ts1, addr, i) == find_from(ts0, addr, i),
    decreases ts0.len() - i,
{
    if !(i < 0 || i >= ts0.len()) && ts0[i].address != addr {
        lemma_find_from_equal(ts0, ts1, addr, i + 1);
    }
}

/// For every velocity input, applying a velocity update and then reading
/// the snapshot of the same address yields the velocity clamped into its
/// legal range.
pub proof fn lemma_velocity_clamped_after_apply(
    pre: StoreView,
    post: StoreView,
    v: i16,
    addr: Seq<char>,
)
    requires
        find_addr(pre.throttles, addr) is Some,
        apply_rel(pre, post, UpdateView::Velocity(v), addr),
    ensures
        find_addr(post.throttles, addr) == find_addr(pre.throttles, addr),
        post.throttles[find_addr(post.throttles, addr)->Some_0].velocity == clamp_velocity(
            v as int,
        ),
        crate::VELOCITY_MIN as int <= post.throttles[find_addr(post.throttles, addr)->Some_0]
            .velocity <= crate::VELOCITY_MAX as int,
{
    let i = find_addr(pre.throttles, addr)->Some_0;
    lemma_find_from_props(pre.throttles, addr, 0);
    assert(forall|j: int| 0 <= j < pre.throttles.len() ==> post.throttles[j].address
        == pre.throttles[j].address);
    lemma_find_addr_stable(pre.throttles, post.throttles, addr);
}

/// A clock update touches only the shared clock: every throttle keeps its
/// exact value.
pub proof fn lemma_time_touches_only_clock(
    pre: StoreView,
    post: StoreView,
    ts: u64,
    sc: Seq<char>,
    addr: Seq<char>,
)
    requires
        find_addr(pre.throttles, addr) is Some,
        apply_rel(pre, post, UpdateView::Time { timestamp: ts, scale: sc }, addr),
    ensures
        post.throttles == pre.throttles,
        post.timestamp == ts,
        post.scale == sc,
{
    lemma_find_from_props(pre.throttles, addr, 0);
    assert(post.throttles =~~= pre.throttles);
}

/// A found index names a throttle with the sought address.
pub proof fn lemma_find_from_props(ts: Seq<ThrottleView>, addr: Seq<char>, i: int)
    requires
        find_from(ts, addr, i) is Some,
    ensures
        i <= find_from(ts, addr, i)->Some_0 < ts.len(),
        ts[find_from(ts, addr, i)->Some_0].address == addr,
    decreases ts.len() - i,
{
    if !(i < 0 || i >= ts.len()) && ts[i].address != addr {
        lemma_find_from_props(ts, addr, i + 1);
    }
}

} // verus!
