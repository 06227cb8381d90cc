use vstd::prelude::*;

verus! {

/// The number of distinct serials before the counter wraps.
pub open spec fn serial_period() -> nat {
    0x1_0000_0000
}

/// The serial that follows `v`: one more, wrapping to zero after `u32::MAX`.
pub open spec fn next_serial(v: u32) -> u32 {
    if v == u32::MAX {
        0
    } else {
        (v + 1) as u32
    }
}

/// The `k`-th serial handed out by a counter that started at `start`.
pub open spec fn serial_at(start: u32, k: nat) -> u32 {
    ((start as nat + k) % serial_period()) as u32
}

/// A wrapping 32-bit sequence generator that tags protocol events.
pub struct SerialCounter {
    value: u32,
}

impl SerialCounter {
    /// The serial that the next draw hands out.
    pub closed spec fn current(&self) -> u32 {
        self.value
    }

    pub fn new(start: u32) -> (r: Self)
        ensures
            r.current() == start,
    {
        SerialCounter { value: start }
    }

    /// The serial that the next draw hands out, without drawing it.
    pub fn get(&self) -> (r: u32)
        ensures
            r == self.current(),
    {
        self.value
    }

    /// Fetch-and-increment: hands out the current serial and advances by one,
    /// wrapping after `u32::MAX`.
    pub fn next(&mut self) -> (r: u32)
        ensures
            r == old(self).current(),
            final(self).current() == next_serial(old(self).current()),
    {
        let r = self.value;
        self.value = self.value.wrapping_add(1);
        r
    }
}

/// A counter made at `start` first hands out `start`; drawing from one that
/// has handed out `k` serials gives the `k`-th serial and leaves it at the
/// `k + 1`-th.
pub proof fn lemma_next_serial_steps(start: u32, k: nat)
    ensures
        serial_at(start, 0) == start,
        next_serial(serial_at(start, k)) == serial_at(start, k + 1),
{
    vstd::arithmetic::div_mod::lemma_small_mod(start as nat, serial_period());
    let a = start as nat + k;
    assert(serial_at(start, k + 1) == ((a + 1) % serial_period()) as u32);
    if a % serial_period() == u32::MAX as nat {
        assert((a + 1) % serial_period() == 0) by {
            vstd::arithmetic::div_mod::lemma_add_mod_noop(a as int, 1, serial_period() as int);
        }
    } else {
        assert((a + 1) % serial_period() == a % serial_period() + 1) by {
            vstd::arithmetic::div_mod::lemma_add_mod_noop(a as int, 1, serial_period() as int);
            vstd::arithmetic::div_mod::lemma_small_mod((a % serial_period() + 1) as nat, serial_period());
        }
    }
}

/// Within one period no serial is handed out twice.
pub proof fn lemma_serials_distinct(start: u32, i: nat, j: nat)
    requires
        i < j,
        j < serial_period(),
    ensures
        serial_at(start, i) != serial_at(start, j),
{
    let p = serial_period() as int;
    let a = start as int + i;
    let b = start as int + j;
    if a % p == b % p {
        vstd::arithmetic::div_mod::lemma_fundamental_div_mod(a, p);
        vstd::arithmetic::div_mod::lemma_fundamental_div_mod(b, p);
        assert(b - a == p * (b / p) - p * (a / p));
        assert(b - a == p * (b / p - a / p)) by (nonlinear_arith)
            requires
                b - a == p * (b / p) - p * (a / p),
        ;
        assert(false) by (nonlinear_arith)
            requires
                b - a == p * (b / p - a / p),
                0 < b - a < p,
        ;
    }
}

/// Until the counter wraps, serials handed out later are larger.
pub proof fn lemma_serials_increase(start: u32, i: nat, j: nat)
    requires
        i < j,
        start as nat + j < serial_period(),
    ensures
        serial_at(start, i) < serial_at(start, j),
{
    vstd::arithmetic::div_mod::lemma_small_mod((start as nat + i) as nat, serial_period());
    vstd::arithmetic::div_mod::lemma_small_mod((start as nat + j) as nat, serial_period());
}

} // verus!
