//! Byte sizes split into a whole number of binary units and a remainder.

use vstd::prelude::*;

verus! {

/// A binary size unit.
#[derive(Debug, Clone, Copy, PartialEq, Eq, Structural)]
pub enum Unit {
    B,
    KB,
    MB,
    GB,
    TB,
    PB,
}

pub const KIB: u64 = 1024;
pub const MIB: u64 = 1048576;
pub const GIB: u64 = 1073741824;
pub const TIB: u64 = 1099511627776;
pub const PIB: u64 = 1125899906842624;

/// Number of bytes in one `u`.
pub open spec fn unit_size(u: Unit) -> nat {
    match u {
        Unit::B => 1,
        Unit::KB => 1024,
        Unit::MB => 1048576,
        Unit::GB => 1073741824,
        Unit::TB => 1099511627776,
        Unit::PB => 1125899906842624,
    }
}

/// The largest unit that is not larger than `bytes` (bytes below one KB use `B`).
pub open spec fn unit_for(bytes: nat) -> Unit {
    if bytes >= 1125899906842624 {
        Unit::PB
    } else if bytes >= 1099511627776 {
        Unit::TB
    } else if bytes >= 1073741824 {
        Unit::GB
    } else if bytes >= 1048576 {
        Unit::MB
    } else if bytes >= 1024 {
        Unit::KB
    } else {
        Unit::B
    }
}

/// The text that names a unit.
pub open spec fn unit_label(u: Unit) -> Seq<char> {
    match u {
        Unit::B => seq!['B'],
        Unit::KB => seq!['K', 'B'],
        Unit::MB => seq!['M', 'B'],
        Unit::GB => seq!['G', 'B'],
        Unit::TB => seq!['T', 'B'],
        Unit::PB => seq!['P', 'B'],
    }
}

impl Unit {
    /// The unit's label: "B", "KB", "MB", "GB", "TB" or "PB".
    pub fn as_str(&self) -> (r: &'static str)
        ensures
            r@ == unit_label(*self),
    {
        match self {
            Unit::B => {
                proof { reveal_strlit("B"); }
                "B"
            },
            Unit::KB => {
                proof { reveal_strlit("KB"); }
                "KB"
            },
            Unit::MB => {
                proof { reveal_strlit("MB"); }
                "MB"
            },
            Unit::GB => {
                proof { reveal_strlit("GB"); }
                "GB"
            },
            Unit::TB => {
                proof { reveal_strlit("TB"); }
                "TB"
            },
            Unit::PB => {
                proof { reveal_strlit("PB"); }
                "PB"
            },
        }
    }

    /// Number of bytes in one unit.
    pub fn size(&self) -> (r: u64)
        ensures
            r == unit_size(*self),
    {
        match self {
            Unit::B => 1,
            Unit::KB => KIB,
            Unit::MB => MIB,
            Unit::GB => GIB,
            Unit::TB => TIB,
            Unit::PB => PIB,
        }
    }
}

/// A size written as `quotient` whole units plus `remainder` bytes.
#[derive(Debug, Clone, PartialEq, Eq, Structural)]
pub struct Storage {
    pub quotient: u64,
    pub remainder: u64,
    pub unit: Unit,
}

impl Storage {
    /// The remainder is less than one unit and the size fits in a `u64`.
    pub open spec fn wf(&self) -> bool {
        &&& self.remainder < unit_size(self.unit)
        &&& self.bytes() <= u64::MAX
    }

    /// The number of bytes this size stands for.
    pub open spec fn bytes(&self) -> nat {
        self.quotient as nat * unit_size(self.unit) + self.remainder as nat
    }

    /// The representation that `from_bytes` gives to `bytes`.
    pub open spec fn spec_from_bytes(bytes: nat) -> Storage {
        let u = unit_for(bytes);
        Storage {
            quotient: (bytes / unit_size(u)) as u64,
            remainder: (bytes % unit_size(u)) as u64,
            unit: u,
        }
    }

    pub fn new(quotient: u64, remainder: u64, unit: Unit) -> (r: Self)
        ensures
            r == (Storage { quotient, remainder, unit }),
    {
        Storage { quotient, remainder, unit }
    }

    /// Splits `bytes` into the largest unit that is not larger than it.
    pub fn from_bytes(bytes: u64) -> (r: Self)
        ensures
            r == Storage::spec_from_bytes(bytes as nat),
            r.wf(),
            r.bytes() == bytes,
    {
        proof {
            lemma_from_bytes_round_trip(bytes);
        }
        let unit = if bytes >= PIB {
            Unit::PB
        } else if bytes >= TIB {
            Unit::TB
        } else if bytes >= GIB {
            Unit::GB
        } else if bytes >= MIB {
            Unit::MB
        } else if bytes >= KIB {
            Unit::KB
        } else {
            Unit::B
        };
        let size = unit.size();
        Storage::new(bytes / size, bytes % size, unit)
    }

    /// The number of bytes this size stands for. In bytes, the remainder
    /// plays no part.
    pub fn to_bytes(&self) -> (r: u64)
        requires
            self.unit == Unit::B || self.wf(),
        ensures
            self.unit == Unit::B ==> r == self.quotient,
            self.unit != Unit::B ==> r == self.bytes(),
    {
        if let Unit::B = self.unit {
            return self.quotient;
        }
        let size = self.unit.size();
        proof {
            assert(self.quotient as nat * (size as nat) <= u64::MAX);
        }
        self.quotient * size + self.remainder
    }

    pub fn quotient(&self) -> (r: u64)
        ensures
            r == self.quotient,
    {
        self.quotient
    }

    pub fn remainder(&self) -> (r: u64)
        ensures
            r == self.remainder,
    {
        self.remainder
    }

    pub fn unit(&self) -> (r: Unit)
        ensures
            r == self.unit,
    {
        self.unit
    }

    /// The sum of two sizes, in the representation `from_bytes` gives it.
    pub fn add(&self, other: &Storage) -> (r: Storage)
        requires
            self.wf(),
            other.wf(),
            self.bytes() + other.bytes() <= u64::MAX,
        ensures
            r == Storage::spec_from_bytes(self.bytes() + other.bytes()),
    {
        proof {
            if self.unit == Unit::B {
                assert(self.remainder == 0);
                assert(unit_size(self.unit) == 1);
                assert(self.quotient as nat * 1 == self.quotient as nat);
                assert(self.bytes() == self.quotient);
            }
            if other.unit == Unit::B {
                assert(other.remainder == 0);
                assert(unit_size(other.unit) == 1);
                assert(other.quotient as nat * 1 == other.quotient as nat);
                assert(other.bytes() == other.quotient);
            }
        }
        Storage::from_bytes(self.to_bytes() + other.to_bytes())
    }
}

/// Converting any representable byte count to a `Storage` and back gives the
/// same count, and the intermediate value is well formed.
pub proof fn lemma_from_bytes_round_trip(n: u64)
    ensures
        Storage::spec_from_bytes(n as nat).wf(),
        Storage::spec_from_bytes(n as nat).bytes() == n,
{
    let u = unit_for(n as nat);
    let size = unit_size(u);
    let q = n as nat / size;
    let r = n as nat % size;
    assert(size > 0);
    vstd::arithmetic::div_mod::lemma_fundamental_div_mod(n as int, size as int);
    vstd::arithmetic::div_mod::lemma_mod_bound(n as int, size as int);
    vstd::arithmetic::div_mod::lemma_div_pos_is_pos(n as int, size as int);
    vstd::arithmetic::div_mod::lemma_div_is_ordered_by_denominator(n as int, 1, size as int);
    assert(n as int / 1 == n);
    assert(q <= n);
    assert(r < size);
    assert(size <= 1125899906842624);
    let s = Storage::spec_from_bytes(n as nat);
    assert(s.quotient == q);
    assert(s.remainder == r);
    assert(s.bytes() == q * size + r);
}

} // verus!
