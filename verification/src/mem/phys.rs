//! Physical addresses and frames.

use vstd::prelude::*;

verus! {

/// Physical addresses are at most 52 bits wide.
pub open spec fn phys_limit() -> int {
    0x10_0000_0000_0000
}

/// A physical address of at most 52 bits.
#[derive(Debug, Copy, Clone, Eq, PartialEq)]
pub struct PhysAddr(u64);

/// Error returned for a physical address wider than 52 bits.
#[derive(Debug)]
pub struct BadAddress;

/// Error returned for a frame base that isn't aligned to the frame size.
#[derive(Debug, Copy, Clone, Eq, PartialEq)]
pub struct UnalignedAddress;

impl PhysAddr {
    #[verifier::type_invariant]
    spec fn inv(self) -> bool {
        self.0 < phys_limit()
    }

    pub closed spec fn view(&self) -> u64 {
        self.0
    }

    /// Every physical address fits in 52 bits.
    pub open spec fn wf(&self) -> bool {
        self@ < phys_limit()
    }

    /// The physical address `addr`, which must fit in 52 bits.
    pub fn new(addr: u64) -> (r: Self)
        requires
            addr < phys_limit(),
        ensures
            r@ == addr,
            r.wf(),
    {
        match Self::try_new(addr) {
            Ok(a) => a,
            Err(_) => {
                proof {
                    assert(false);
                }
                Self(0)
            },
        }
    }

    /// The physical address `addr`, or `Err(BadAddress)` when it is wider than 52 bits.
    pub fn try_new(addr: u64) -> (r: Result<Self, BadAddress>)
        ensures
            (addr < phys_limit()) <==> r is Ok,
            r matches Ok(a) ==> a@ == addr && a.wf(),
    {
        if Self::new_truncate(addr).0 == addr {
            Ok(Self(addr))
        } else {
            Err(BadAddress)
        }
    }

    /// `addr` with every bit above bit 51 dropped.
    pub fn new_truncate(addr: u64) -> (r: Self)
        ensures
            r@ == addr % 0x10_0000_0000_0000,
            r.wf(),
    {
        Self(addr % 0x10_0000_0000_0000)
    }

    /// The address as an integer.
    pub fn as_u64(&self) -> (r: u64)
        ensures
            r == self@,
            r < phys_limit(),
    {
        proof {
            use_type_invariant(self);
        }
        self.0
    }
}

/// A 4 KiB physical frame, identified by its aligned base address.
#[derive(Debug, Copy, Clone, Eq, PartialEq)]
pub struct Frame {
    base: PhysAddr,
}

impl Frame {
    /// Size in bytes of a frame.
    pub const SIZE: u64 = 4096;

    #[verifier::type_invariant]
    spec fn inv(self) -> bool {
        self.base@ % 4096 == 0
    }

    pub closed spec fn view(&self) -> u64 {
        self.base@
    }

    /// A frame is page aligned and lies below the 52-bit physical limit.
    pub open spec fn wf(&self) -> bool {
        &&& self@ % 4096 == 0
        &&& self@ < phys_limit()
    }

    /// The number of the frame: its base divided by the frame size.
    pub open spec fn index_of(&self) -> int {
        self@ as int / 4096
    }

    /// The frame whose base is `base`, which must be frame aligned.
    pub fn from_start_address(base: PhysAddr) -> (r: Self)
        requires
            base@ % 4096 == 0,
        ensures
            r@ == base@,
            r.wf(),
    {
        match Self::try_from_start_address(base) {
            Ok(f) => f,
            Err(_) => {
                proof {
                    assert(false);
                }
                Self { base }
            },
        }
    }

    /// The base address of the frame.
    pub fn base(&self) -> (r: PhysAddr)
        ensures
            r@ == self@,
            self.wf(),
    {
        proof {
            use_type_invariant(self);
            use_type_invariant(&self.base);
        }
        self.base
    }

    /// The frame number `index`, whose base is `index * Frame::SIZE`, or
    /// `Err(BadAddress)` when that base is wider than 52 bits.
    pub fn from_index(index: u64) -> (r: Result<Self, BadAddress>)
        requires
            index * 4096 <= u64::MAX,
        ensures
            (index * 4096 < phys_limit()) <==> r is Ok,
            r matches Ok(f) ==> f@ == index * 4096 && f.wf(),
    {
        let start: u64 = index * Self::SIZE;
        assert(start % 4096 == 0) by {
            vstd::arithmetic::div_mod::lemma_mod_multiples_basic(index as int, 4096);
        }
        match PhysAddr::try_new(start) {
            Ok(a) => Ok(Self::from_start_address(a)),
            Err(e) => Err(e),
        }
    }

    /// The frame whose base is `base`, or `Err(UnalignedAddress)` when `base`
    /// isn't frame aligned.
    pub fn try_from_start_address(base: PhysAddr) -> (r: Result<Self, UnalignedAddress>)
        ensures
            (base@ % 4096 == 0) <==> r is Ok,
            r matches Ok(f) ==> f@ == base@ && f.wf(),
    {
        proof {
            use_type_invariant(&base);
        }
        if base.as_u64() % Self::SIZE != 0 {
            return Err(UnalignedAddress);
        }
        Ok(Self { base })
    }

    /// The frame that contains the physical address `addr`.
    pub fn within_frame(addr: PhysAddr) -> (r: Self)
        ensures
            r@ == addr@ - addr@ % 4096,
            r.wf(),
    {
        let a: u64 = addr.as_u64();
        let b: u64 = a & !(Self::SIZE - 1);
        assert(Self::SIZE - 1 == 4095u64);
        assert(b == a - a % 4096 && b % 4096 == 0) by (bit_vector)
            requires
                b == a & !4095u64,
        ;
        let base = PhysAddr::new(b);
        Self { base }
    }

    /// The frame that follows this one.
    pub fn next(&self) -> (r: Self)
        requires
            self@ + 4096 < phys_limit(),
        ensures
            r@ == self@ + 4096,
            r.wf(),
    {
        proof {
            use_type_invariant(self);
        }
        Self { base: PhysAddr::new(self.base.as_u64() + Self::SIZE) }
    }

    /// The base address of the frame.
    pub fn addr(&self) -> (r: PhysAddr)
        ensures
            r@ == self@,
            self.wf(),
    {
        proof {
            use_type_invariant(self);
            use_type_invariant(&self.base);
        }
        self.base
    }
}

} // verus!
