use vstd::prelude::*;
use core::cmp::Ordering;
use crate::text::{decimal, number_with_unit};

verus! {

/// A memory size, given in one of the binary units.
#[derive(Debug, Copy, Clone)]
pub enum Size {
    KiB(usize),
    MiB(usize),
    GiB(usize),
    TiB(usize),
}

/// `1024 ^ exp` bytes.
pub open spec fn unit(exp: nat) -> nat
    decreases exp,
{
    if exp == 0 {
        1
    } else {
        1024 * unit((exp - 1) as nat)
    }
}

impl Size {
    /// The number of bytes that this size stands for.
    pub open spec fn spec_bytes(self) -> nat {
        match self {
            Size::KiB(x) => x as nat * 1024,
            Size::MiB(x) => x as nat * (1024 * 1024),
            Size::GiB(x) => x as nat * (1024 * 1024 * 1024),
            Size::TiB(x) => x as nat * (1024 * 1024 * 1024 * 1024),
        }
    }

    /// How many unit steps this size's unit is above KiB.
    pub open spec fn unit_rank(self) -> nat {
        match self {
            Size::KiB(_) => 0,
            Size::MiB(_) => 1,
            Size::GiB(_) => 2,
            Size::TiB(_) => 3,
        }
    }

    /// Returns the number of bytes of this size.
    pub fn bytes(self) -> (r: usize)
        requires
            self.spec_bytes() <= usize::MAX,
            // the unit itself must fit, which only matters for TiB on 32-bit targets
            self.unit_rank() == 3 ==> 1024 * 1024 * 1024 * 1024 <= usize::MAX,
        ensures
            r == self.spec_bytes(),
        decreases self.unit_rank(),
    {
        match self {
            Size::KiB(x) => x * 1024,
            Size::MiB(x) => x * Size::KiB(1024).bytes(),
            Size::GiB(x) => x * Size::MiB(1024).bytes(),
            Size::TiB(x) => x * Size::GiB(1024).bytes(),
        }
    }

    /// The size as text: the number, a space and the unit, as in `8 MiB`.
    pub fn to_string(&self) -> (r: String)
        ensures
            r@ == match *self {
                Size::KiB(v) => decimal(v as nat) + seq![' '] + "KiB"@,
                Size::MiB(v) => decimal(v as nat) + seq![' '] + "MiB"@,
                Size::GiB(v) => decimal(v as nat) + seq![' '] + "GiB"@,
                Size::TiB(v) => decimal(v as nat) + seq![' '] + "TiB"@,
            },
    {
        proof {
            reveal_strlit("KiB");
            reveal_strlit("MiB");
            reveal_strlit("GiB");
            reveal_strlit("TiB");
            assert(seq![' '] + "KiB"@ =~= seq![' ', 'K', 'i', 'B']);
            assert(seq![' '] + "MiB"@ =~= seq![' ', 'M', 'i', 'B']);
            assert(seq![' '] + "GiB"@ =~= seq![' ', 'G', 'i', 'B']);
            assert(seq![' '] + "TiB"@ =~= seq![' ', 'T', 'i', 'B']);
        }
        let r = match *self {
            Size::KiB(v) => number_with_unit(v, 'K'),
            Size::MiB(v) => number_with_unit(v, 'M'),
            Size::GiB(v) => number_with_unit(v, 'G'),
            Size::TiB(v) => number_with_unit(v, 'T'),
        };
        proof {
            match *self {
                Size::KiB(v) => assert(decimal(v as nat) + seq![' ', 'K', 'i', 'B'] =~= decimal(v as nat) + seq![' '] + "KiB"@),
                Size::MiB(v) => assert(decimal(v as nat) + seq![' ', 'M', 'i', 'B'] =~= decimal(v as nat) + seq![' '] + "MiB"@),
                Size::GiB(v) => assert(decimal(v as nat) + seq![' ', 'G', 'i', 'B'] =~= decimal(v as nat) + seq![' '] + "GiB"@),
                Size::TiB(v) => assert(decimal(v as nat) + seq![' ', 'T', 'i', 'B'] =~= decimal(v as nat) + seq![' '] + "TiB"@),
            }
        }
        r
    }

    /// The number of bytes of this size, computed without any risk of overflow.
    pub fn bytes_wide(self) -> (r: u128)
        ensures
            r == self.spec_bytes(),
    {
        proof {
            assert(usize::MAX <= u64::MAX);
        }
        match self {
            Size::KiB(x) => {
                assert(x * 1024 <= u64::MAX * 1024) by (nonlinear_arith)
                    requires x <= u64::MAX;
                (x as u128) * 1024
            },
            Size::MiB(x) => {
                assert(x * (1024 * 1024) <= u64::MAX * (1024 * 1024)) by (nonlinear_arith)
                    requires x <= u64::MAX;
                (x as u128) * (1024 * 1024)
            },
            Size::GiB(x) => {
                assert(x * (1024 * 1024 * 1024) <= u64::MAX * (1024 * 1024 * 1024)) by (nonlinear_arith)
                    requires x <= u64::MAX;
                (x as u128) * (1024 * 1024 * 1024)
            },
            Size::TiB(x) => {
                assert(x * (1024 * 1024 * 1024 * 1024) <= u64::MAX * (1024 * 1024 * 1024 * 1024)) by (nonlinear_arith)
                    requires x <= u64::MAX;
                (x as u128) * (1024 * 1024 * 1024 * 1024)
            },
        }
    }
}

impl PartialEq for Size {
    fn eq(&self, other: &Self) -> (r: bool) {
        self.bytes_wide() == other.bytes_wide()
    }
}

impl vstd::std_specs::cmp::PartialEqSpecImpl for Size {
    open spec fn obeys_eq_spec() -> bool {
        true
    }

    open spec fn eq_spec(&self, other: &Self) -> bool {
        self.spec_bytes() == other.spec_bytes()
    }
}

impl Eq for Size {}

impl PartialOrd for Size {
    fn partial_cmp(&self, other: &Self) -> (r: Option<Ordering>) {
        let a = self.bytes_wide();
        let b = other.bytes_wide();
        if a < b {
            Some(Ordering::Less)
        } else if a == b {
            Some(Ordering::Equal)
        } else {
            Some(Ordering::Greater)
        }
    }
}

impl vstd::std_specs::cmp::PartialOrdSpecImpl for Size {
    open spec fn obeys_partial_cmp_spec() -> bool {
        true
    }

    open spec fn partial_cmp_spec(&self, other: &Self) -> Option<Ordering> {
        if self.spec_bytes() < other.spec_bytes() {
            Some(Ordering::Less)
        } else if self.spec_bytes() == other.spec_bytes() {
            Some(Ordering::Equal)
        } else {
            Some(Ordering::Greater)
        }
    }
}

/// Each unit is 1024 of the one below it: 1024 of a unit are one of the next.
pub proof fn lemma_unit_steps(x: usize)
    ensures
        Size::KiB(x).spec_bytes() * 1024 == (x as nat) * (1024 * 1024),
        x * 1024 <= usize::MAX ==> Size::KiB((x * 1024) as usize).spec_bytes() == Size::MiB(x).spec_bytes(),
        x * 1024 <= usize::MAX ==> Size::MiB((x * 1024) as usize).spec_bytes() == Size::GiB(x).spec_bytes(),
        x * 1024 <= usize::MAX ==> Size::GiB((x * 1024) as usize).spec_bytes() == Size::TiB(x).spec_bytes(),
{
    let y = x as int;
    assert(y * 1024 * 1024 == y * (1024 * 1024)) by (nonlinear_arith);
    assert((y * 1024) * (1024 * 1024) == y * (1024 * 1024 * 1024)) by (nonlinear_arith);
    assert((y * 1024) * (1024 * 1024 * 1024) == y * (1024 * 1024 * 1024 * 1024)) by (nonlinear_arith);
}

} // verus!
