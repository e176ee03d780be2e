//! Throttle-side data model: velocity, direction, function flags and the
//! shared fast clock.

use vstd::prelude::*;
use crate::{VELOCITY_MAX, VELOCITY_MIN};

verus! {

pub type VelocityValue = i16;

pub type FunctionNum = u8;

pub type Timestamp = u64;

/// The clock's scale is carried as the decimal text the protocol supplied
/// (digits with an optional fraction, e.g. `"2.0"`), so that it can be
/// stored and re-emitted exactly; conversion to a machine float is left to
/// the unverified rim of the process.
pub type TimeScale = String;

/// Velocity clamped into the legal range on every write.
pub open spec fn clamp_velocity(v: int) -> int {
    if v < VELOCITY_MIN as int {
        VELOCITY_MIN as int
    } else if v > VELOCITY_MAX as int {
        VELOCITY_MAX as int
    } else {
        v
    }
}

/// Signed speed value of one throttle; negative values denote emergency
/// stop states.
#[derive(Debug)]
pub struct Velocity {
    value: i16,
}

impl View for Velocity {
    type V = int;

    closed spec fn view(&self) -> int {
        self.value as int
    }
}

impl Velocity {
    pub fn new(value: i16) -> (v: Velocity)
        ensures
            v@ == value as int,
    {
        Velocity { value }
    }

    /// Writes a new value, re-applying the clamp invariant unconditionally.
    pub fn set(&mut self, new: i16)
        ensures
            final(self)@ == clamp_velocity(new as int),
    {
        self.value = if new < VELOCITY_MIN {
            VELOCITY_MIN
        } else if new > VELOCITY_MAX {
            VELOCITY_MAX
        } else {
            new
        };
    }

    pub fn value(&self) -> (v: i16)
        ensures
            v as int == self@,
    {
        self.value
    }

    /// Reads a velocity from the leftmost velocity token in `s`, without
    /// clamping; a string holding none is rejected with a message naming
    /// it.
    pub fn from_str(s: &str) -> (r: Result<Velocity, VelocityParseError>)
        ensures
            match crate::parse::vel_first(s@) {
                Some(i) => r matches Ok(v) && v@ == crate::parse::vel_val_at(s@, i),
                None => r matches Err(e) && e@ == "Unable to parse '"@ + s@
                    + "' as Velocity"@,
            },
    {
        match crate::parse::find_velocity(s) {
            Some(v) => Ok(Velocity { value: v }),
            None => {
                let mut m = String::from_str("Unable to parse '");
                m.append(s);
                m.append("' as Velocity");
                proof {
                    assert(m@ =~= "Unable to parse '"@ + s@ + "' as Velocity"@);
                }
                Err(VelocityParseError { value: m })
            },
        }
    }
}

/// Error for a string that spells no velocity token.
#[derive(Debug)]
pub struct VelocityParseError {
    value: String,
}

impl View for VelocityParseError {
    type V = Seq<char>;

    closed spec fn view(&self) -> Seq<char> {
        self.value@
    }
}

impl VelocityParseError {
    pub fn message(&self) -> (m: &str)
        ensures
            m@ == self@,
    {
        self.value.as_str()
    }
}

/// Travel direction of one throttle.
#[derive(Clone, Copy, PartialEq, Eq, Structural, Debug)]
pub enum Direction {
    Reverse,
    Forward,
}

/// The two-character wire token of a direction: `R0` reverse, `R1` forward.
pub open spec fn direction_token(d: Direction) -> Seq<char> {
    match d {
        Direction::Reverse => seq!['R', '0'],
        Direction::Forward => seq!['R', '1'],
    }
}

impl Direction {
    /// Reads a direction from its wire token: `R0` is reverse, anything
    /// else forward.
    pub fn from_str(s: &str) -> (d: Direction)
        ensures
            d == (if s@ == direction_token(Direction::Reverse) {
                Direction::Reverse
            } else {
                Direction::Forward
            }),
    {
        let n = s.unicode_len();
        if n == 2 && s.get_char(0) == 'R' && s.get_char(1) == '0' {
            proof {
                assert(s@ =~= direction_token(Direction::Reverse));
            }
            Direction::Reverse
        } else {
            proof {
                if s@ == direction_token(Direction::Reverse) {
                    assert(s@.len() == 2);
                    assert(s@[0] == 'R' && s@[1] == '0');
                }
            }
            Direction::Forward
        }
    }

    /// Renders the wire token of this direction.
    pub fn token(&self) -> (s: &'static str)
        ensures
            s@ == direction_token(*self),
    {
        match self {
            Direction::Reverse => {
                let s = "R0";
                proof {
                    reveal_strlit("R0");
                    assert(s@ =~= direction_token(Direction::Reverse));
                }
                s
            },
            Direction::Forward => {
                let s = "R1";
                proof {
                    reveal_strlit("R1");
                    assert(s@ =~= direction_token(Direction::Forward));
                }
                s
            },
        }
    }
}

/// A strictly increasing sequence: the representation invariant of the
/// function-flag set.
pub open spec fn strictly_sorted(s: Seq<u8>) -> bool {
    forall|i: int, j: int| 0 <= i < j < s.len() ==> s[i] < s[j]
}

/// Characters that can stand in a JSON string without escaping.
pub open spec fn json_plain_char(c: char) -> bool {
    c != '"' && c != '\\' && c as u32 >= 32
}

pub open spec fn json_plain(s: Seq<char>) -> bool {
    forall|i: int| 0 <= i < s.len() ==> json_plain_char(#[trigger] s[i])
}

/// Mathematical value of one throttle.
#[verifier::ext_equal]
pub struct ThrottleView {
    pub address: Seq<char>,
    pub velocity: int,
    pub direction: Direction,
    pub functions: Seq<u8>,
}

/// Velocity inside its clamp bounds, function list strictly sorted,
/// address fit for direct embedding in JSON.
pub open spec fn wf_view(t: ThrottleView) -> bool {
    &&& VELOCITY_MIN as int <= t.velocity <= VELOCITY_MAX as int
    &&& strictly_sorted(t.functions)
    &&& json_plain(t.address)
}

/// In-memory control state for one addressable entity: velocity, direction
/// and the set of active function numbers (kept strictly sorted, so that a
/// snapshot always serializes the same way).
pub struct Throttle {
    address: String,
    velocity: Velocity,
    direction: Direction,
    functions: Vec<u8>,
}

impl View for Throttle {
    type V = ThrottleView;

    closed spec fn view(&self) -> ThrottleView {
        ThrottleView {
            address: self.address@,
            velocity: self.velocity@,
            direction: self.direction,
            functions: self.functions@,
        }
    }
}

impl DeepView for Throttle {
    type V = ThrottleView;

    open spec fn deep_view(&self) -> ThrottleView {
        self.view()
    }
}

impl Clone for Velocity {
    fn clone(&self) -> (v: Velocity)
        ensures
            v@ == self@,
    {
        Velocity { value: self.value }
    }
}

impl Clone for Throttle {
    /// A field-for-field copy: the clone has the same mathematical value.
    fn clone(&self) -> (t: Throttle)
        ensures
            t@ == self@,
    {
        let n = self.functions.len();
        let mut functions: Vec<u8> = Vec::new();
        let mut i: usize = 0;
        while i < n
            invariant
                n == self.functions@.len(),
                i <= n,
                functions@ == self.functions@.take(i as int),
            decreases n - i,
        {
            functions.push(self.functions[i]);
            proof {
                assert(functions@ =~= self.functions@.take(i as int + 1));
            }
            i += 1;
        }
        proof {
            assert(self.functions@.take(n as int) =~= self.functions@);
        }
        let t = Throttle {
            address: self.address.clone(),
            velocity: self.velocity.clone(),
            direction: self.direction,
            functions,
        };
        proof {
            assert(t@ =~~= self@);
        }
        t
    }
}

impl Throttle {
    /// Velocity inside its clamp bounds, function list strictly sorted,
    /// address fit for direct embedding in JSON.
    pub open spec fn wf(&self) -> bool {
        wf_view(self@)
    }

    pub fn new(address: String) -> (t: Throttle)
        requires
            json_plain(address@),
        ensures
            t.wf(),
            t@.address == address@,
            t@.velocity == 0,
            t@.direction == Direction::Forward,
            t@.functions == Seq::<u8>::empty(),
    {
        let t = Throttle {
            address,
            velocity: Velocity::new(0),
            direction: Direction::Forward,
            functions: Vec::new(),
        };
        proof {
            assert(t@.functions =~= Seq::<u8>::empty());
        }
        t
    }

    /// A throttle is in an emergency-stop state when its velocity is
    /// negative.
    pub fn is_emergency(&self) -> (r: bool)
        ensures
            r == (self@.velocity < 0),
    {
        self.velocity.value() < 0
    }

    pub fn get_vel(&self) -> (v: i16)
        ensures
            v as int == self@.velocity,
    {
        self.velocity.value()
    }

    /// Writes the velocity, re-applying the clamp invariant.
    pub fn set_vel(&mut self, vel: i16)
        ensures
            final(self)@.velocity == clamp_velocity(vel as int),
            final(self)@.address == old(self)@.address,
            final(self)@.direction == old(self)@.direction,
            final(self)@.functions == old(self)@.functions,
            old(self).wf() ==> final(self).wf(),
    {
        self.velocity.set(vel);
    }

    pub fn get_dir(&self) -> (d: &Direction)
        ensures
            *d == self@.direction,
    {
        &self.direction
    }

    pub fn set_dir(&mut self, dir: Direction)
        ensures
            final(self)@.direction == dir,
            final(self)@.address == old(self)@.address,
            final(self)@.velocity == old(self)@.velocity,
            final(self)@.functions == old(self)@.functions,
            old(self).wf() ==> final(self).wf(),
    {
        self.direction = dir;
    }

    pub fn address(&self) -> (a: &str)
        ensures
            a@ == self@.address,
    {
        self.address.as_str()
    }

    /// Whether this throttle's address spells `other`.
    pub fn address_eq(&self, other: &str) -> (r: bool)
        ensures
            r == (self@.address == other@),
    {
        crate::str_eq(self.address.as_str(), other)
    }

    /// The active function numbers, in increasing order.
    pub fn function_list(&self) -> (fs: &Vec<u8>)
        ensures
            fs@ == self@.functions,
    {
        &self.functions
    }

    /// Whether function `num` is currently on.
    pub fn get_func(&self, num: &u8) -> (r: bool)
        ensures
            r == self@.functions.contains(*num),
    {
        let mut i: usize = 0;
        let n = self.functions.len();
        while i < n
            invariant
                i <= n,
                n == self@.functions.len(),
                forall|j: int| 0 <= j < i ==> self@.functions[j] != *num,
            decreases n - i,
        {
            if self.functions[i] == *num {
                return true;
            }
            i += 1;
        }
        proof {
            assert(forall|j: int|
                0 <= j < self@.functions.len() ==> self@.functions[j] != *num);
        }
        false
    }

    /// Turns function `num` on or off; any number is accepted.
    pub fn set_func(&mut self, num: u8, is_on: bool)
        requires
            old(self).wf(),
        ensures
            final(self).wf(),
            final(self)@.address == old(self)@.address,
            final(self)@.velocity == old(self)@.velocity,
            final(self)@.direction == old(self)@.direction,
            forall|k: u8| #[trigger]
                final(self)@.functions.contains(k) <==> (if is_on {
                    old(self)@.functions.contains(k) || k == num
                } else {
                    old(self)@.functions.contains(k) && k != num
                }),
    {
        // Find the first position whose entry is >= num.
        let mut i: usize = 0;
        let n = self.functions.len();
        while i < n && self.functions[i] < num
            invariant
                i <= n,
                n == self@.functions.len(),
                forall|j: int| 0 <= j < i ==> self@.functions[j] < num,
            decreases n - i,
        {
            i += 1;
        }
        let present = i < n && self.functions[i] == num;
        proof {
            if present {
                assert(self@.functions.contains(num));
            } else {
                assert(forall|j: int| 0 <= j < self@.functions.len() ==>
                    self@.functions[j] != num) by {
                    assert(forall|j: int| i <= j < self@.functions.len() ==>
                        #[trigger] self@.functions[j] >= num);
                    assert(forall|j: int| i < j < self@.functions.len() ==>
                        self@.functions[j] > self@.functions[i as int]);
                    if i < self@.functions.len() {
                        assert(self@.functions[i as int] > num);
                    }
                }
            }
        }
        if is_on {
            if !present {
                self.functions.insert(i, num);
                proof {
                    let new_s = self@.functions;
                    let old_s = old(self)@.functions;
                    assert forall|k: u8| #[trigger] new_s.contains(k) implies
                        (old_s.contains(k) || k == num) by {
                        let w = choose|w: int| 0 <= w < new_s.len() && new_s[w] == k;
                        if w < i {
                            assert(old_s[w] == k);
                        } else if w > i {
                            assert(old_s[w - 1] == k);
                        }
                    }
                    assert forall|k: u8| old_s.contains(k) || k == num implies
                        #[trigger] new_s.contains(k) by {
                        if k == num {
                            assert(new_s[i as int] == k);
                        } else {
                            let w = choose|w: int| 0 <= w < old_s.len() && old_s[w] == k;
                            if w < i {
                                assert(new_s[w] == k);
                            } else {
                                assert(new_s[w + 1] == k);
                            }
                        }
                    }
                    assert(strictly_sorted(new_s)) by {
                        assert forall|p: int, q: int| 0 <= p < q < new_s.len() implies
                            new_s[p] < new_s[q] by {
                            if q < i {
                            } else if p > i {
                            } else if p == i && q > i {
                                assert(new_s[q] == old_s[q - 1]);
                                assert(old_s[q - 1] >= num);
                                assert(old_s[q - 1] != num);
                            } else if q == i && p < i {
                                assert(new_s[p] == old_s[p]);
                            } else if p < i && q > i {
                                assert(new_s[p] == old_s[p]);
                                assert(new_s[q] == old_s[q - 1]);
                            }
                        }
                    }
                }
            }
        } else {
            if present {
                self.functions.remove(i);
                proof {
                    let new_s = self@.functions;
                    let old_s = old(self)@.functions;
                    assert forall|k: u8| #[trigger] new_s.contains(k) implies
                        (old_s.contains(k) && k != num) by {
                        let w = choose|w: int| 0 <= w < new_s.len() && new_s[w] == k;
                        if w < i {
                            assert(old_s[w] == k);
                            assert(old_s[w] < num);
                        } else {
                            assert(old_s[w + 1] == k);
                            assert(old_s[w + 1] > old_s[i as int]);
                        }
                    }
                    assert forall|k: u8| old_s.contains(k) && k != num implies
                        #[trigger] new_s.contains(k) by {
                        let w = choose|w: int| 0 <= w < old_s.len() && old_s[w] == k;
                        if w < i {
                            assert(new_s[w] == k);
                        } else if w > i {
                            assert(new_s[w - 1] == k);
                        }
                    }
                }
            }
        }
    }
}

/// The shared fast clock: a protocol-supplied counter and a scale
/// multiplier kept as decimal text.
pub struct DccTime {
    pub timestamp: Timestamp,
    pub scale: TimeScale,
}

impl DccTime {
    pub fn new(timestamp: Timestamp, scale: TimeScale) -> (t: DccTime)
        ensures
            t.timestamp == timestamp,
            t.scale@ == scale@,
    {
        DccTime { timestamp, scale }
    }

    pub fn update(&mut self, timestamp: u64, scale: TimeScale)
        ensures
            final(self).timestamp == timestamp,
            final(self).scale@ == scale@,
    {
        self.timestamp = timestamp;
        self.scale = scale;
    }
}

impl Default for DccTime {
    /// The clock starts at zero with scale `1.0`.
    fn default() -> (t: DccTime)
        ensures
            t.timestamp == 0,
            t.scale@ == "1.0"@,
    {
        DccTime { timestamp: 0, scale: String::from_str("1.0") }
    }
}

} // verus!

