//! Type layout registry: size, alignment and classification of every
//! representation a value can have.
//!
//! Scalars have fixed layouts. An aggregate carries its own size and
//! alignment; one is built from member representations by [`aggregate_of`],
//! which lays the members out one after another, each at the next offset that
//! suits its alignment, and pads the whole to the largest member alignment.
//! Members are complete representations, so an aggregate cannot hold itself.
use vstd::prelude::*;
use vstd::arithmetic::div_mod::lemma_fundamental_div_mod;
use vstd::arithmetic::div_mod::lemma_mod_multiples_basic;
use vstd::arithmetic::div_mod::lemma_mod_self_0;
use vstd::arithmetic::div_mod::lemma_small_mod;

verus! {

/// How the bits of a value are to be read.
#[derive(Clone, Copy, Debug, PartialEq, Eq, Structural, Hash)]
pub enum Repr {
    /// An integer of the given width in bits: 8, 16, 32 or 64.
    Int(u8),
    /// A floating-point number of the given width in bits: 32 or 64.
    Float(u8),
    /// An address.
    Pointer,
    /// A block of `size` bytes placed at a multiple of `align`.
    Aggregate { size: u64, align: u64 },
}

/// The broad class of a representation.
#[derive(Clone, Copy, Debug, PartialEq, Eq, Structural, Hash)]
pub enum BaseKind {
    Integer,
    Float,
    Pointer,
    Aggregate,
}

/// Size and alignment in bytes.
#[derive(Clone, Copy, Debug, PartialEq, Eq, Structural, Hash)]
pub struct Layout {
    pub size: u64,
    pub align: u64,
}

/// Why a representation has no layout.
#[derive(Clone, Copy, Debug, PartialEq, Eq, Structural, Hash)]
pub enum WellFormednessError {
    /// An integer or floating-point width outside the supported set.
    UnsupportedWidth,
    /// An aggregate whose size and alignment contradict each other.
    IllFormedAggregate,
    /// An aggregate whose size does not fit in 64 bits.
    TooLarge,
}

/// Bytes in an address.
pub const POINTER_BYTES: u64 = 8;

/// Whether `n` is 1, 2, 4, 8, ...
pub open spec fn power_of_two(n: nat) -> bool
    decreases n,
{
    if n == 0 {
        false
    } else if n == 1 {
        true
    } else {
        n % 2 == 0 && power_of_two(n / 2)
    }
}

/// The least multiple of `align` that is at least `offset`; `offset` itself
/// where `align` is 0.
pub open spec fn align_up(offset: nat, align: nat) -> nat {
    if align == 0 || offset % align == 0 {
        offset
    } else {
        (offset + align - offset % align) as nat
    }
}

/// An aggregate is either empty, with no alignment, or has a positive size
/// that is a multiple of its alignment, itself a power of two.
pub open spec fn aggregate_well_formed(size: nat, align: nat) -> bool {
    ||| size == 0 && align == 0
    ||| size > 0 && power_of_two(align) && size % align == 0
}

/// The layout of `r`, or the reason it has none.
pub open spec fn spec_layout_of(r: Repr) -> Result<Layout, WellFormednessError> {
    match r {
        Repr::Int(bits) => if bits == 8 || bits == 16 || bits == 32 || bits == 64 {
            Ok(Layout { size: (bits / 8) as u64, align: (bits / 8) as u64 })
        } else {
            Err(WellFormednessError::UnsupportedWidth)
        },
        Repr::Float(bits) => if bits == 32 || bits == 64 {
            Ok(Layout { size: (bits / 8) as u64, align: (bits / 8) as u64 })
        } else {
            Err(WellFormednessError::UnsupportedWidth)
        },
        Repr::Pointer => Ok(Layout { size: POINTER_BYTES, align: POINTER_BYTES }),
        Repr::Aggregate { size, align } => if aggregate_well_formed(size as nat, align as nat) {
            Ok(Layout { size, align })
        } else {
            Err(WellFormednessError::IllFormedAggregate)
        },
    }
}

/// Whether `r` has a layout.
pub open spec fn well_formed(r: Repr) -> bool {
    spec_layout_of(r) is Ok
}

/// Whether `r` is a well-formed integer, floating-point or pointer
/// representation.
pub open spec fn scalar(r: Repr) -> bool {
    well_formed(r) && !(r is Aggregate)
}

/// The class of `r`.
pub open spec fn spec_base_kind(r: Repr) -> BaseKind {
    match r {
        Repr::Int(_) => BaseKind::Integer,
        Repr::Float(_) => BaseKind::Float,
        Repr::Pointer => BaseKind::Pointer,
        Repr::Aggregate { .. } => BaseKind::Aggregate,
    }
}

/// Size of `r` in bytes; 0 where `r` has no layout.
pub open spec fn size_of(r: Repr) -> nat {
    match spec_layout_of(r) {
        Ok(l) => l.size as nat,
        Err(_) => 0,
    }
}

/// Alignment of `r` in bytes; 0 where `r` has no layout.
pub open spec fn align_of(r: Repr) -> nat {
    match spec_layout_of(r) {
        Ok(l) => l.align as nat,
        Err(_) => 0,
    }
}

/// The error of the first member that has no layout, if there is one.
pub open spec fn members_error(ms: Seq<Repr>) -> Option<WellFormednessError>
    decreases ms.len(),
{
    if ms.len() == 0 {
        None
    } else {
        match members_error(ms.drop_last()) {
            Some(e) => Some(e),
            None => match spec_layout_of(ms.last()) {
                Ok(_) => None,
                Err(e) => Some(e),
            },
        }
    }
}

/// The offset just past the last member when each member is placed at the
/// next offset that suits its alignment.
pub open spec fn members_end(ms: Seq<Repr>) -> nat
    decreases ms.len(),
{
    if ms.len() == 0 {
        0
    } else {
        align_up(members_end(ms.drop_last()), align_of(ms.last())) + size_of(ms.last())
    }
}

/// The largest member alignment; 0 without members.
pub open spec fn members_align(ms: Seq<Repr>) -> nat
    decreases ms.len(),
{
    if ms.len() == 0 {
        0
    } else {
        let rest = members_align(ms.drop_last());
        if align_of(ms.last()) > rest {
            align_of(ms.last())
        } else {
            rest
        }
    }
}

/// The sum of the member sizes.
pub open spec fn members_total(ms: Seq<Repr>) -> nat
    decreases ms.len(),
{
    if ms.len() == 0 {
        0
    } else {
        members_total(ms.drop_last()) + size_of(ms.last())
    }
}

/// The size of the aggregate of `ms`: the end of the last member, padded to
/// the aggregate's alignment.
pub open spec fn aggregate_size(ms: Seq<Repr>) -> nat {
    align_up(members_end(ms), members_align(ms))
}

/// The aggregate built from `ms`, or the reason none can be built.
pub open spec fn spec_aggregate_of(ms: Seq<Repr>) -> Result<Repr, WellFormednessError> {
    match members_error(ms) {
        Some(e) => Err(e),
        None => if aggregate_size(ms) > u64::MAX {
            Err(WellFormednessError::TooLarge)
        } else {
            Ok(Repr::Aggregate { size: aggregate_size(ms) as u64, align: members_align(ms) as u64 })
        },
    }
}

/// `align_up` yields a multiple of the alignment, at least the offset and
/// less than one alignment above it.
pub proof fn lemma_align_up(offset: nat, align: nat)
    requires
        align > 0,
    ensures
        align_up(offset, align) % align == 0,
        offset <= align_up(offset, align) < offset + align,
{
    let x = offset as int;
    let a = align as int;
    lemma_fundamental_div_mod(x, a);
    if x % a != 0 {
        let q = x / a + 1;
        assert(x + a - x % a == q * a) by (nonlinear_arith)
            requires
                x == a * (x / a) + x % a,
                q == x / a + 1,
        ;
        lemma_mod_multiples_basic(q, a);
    }
}

/// The error of a prefix is the error of the whole sequence.
pub proof fn lemma_members_error_prefix(ms: Seq<Repr>, k: int, e: WellFormednessError)
    requires
        0 <= k <= ms.len(),
        members_error(ms.take(k)) == Some(e),
    ensures
        members_error(ms) == Some(e),
    decreases ms.len() - k,
{
    if k == ms.len() {
        assert(ms.take(k) =~= ms);
    } else {
        assert(ms.take(k + 1).drop_last() =~= ms.take(k));
        lemma_members_error_prefix(ms, k + 1, e);
    }
}

/// A representation with a layout has alignment 0 exactly when its size is
/// 0, and every other alignment is a power of two.
pub proof fn lemma_layout_shape(r: Repr)
    requires
        well_formed(r),
    ensures
        size_of(r) == 0 <==> align_of(r) == 0,
        align_of(r) == 0 || power_of_two(align_of(r)),
        align_of(r) > 0 ==> size_of(r) % align_of(r) == 0,
{
    reveal_with_fuel(power_of_two, 5);
    match r {
        Repr::Aggregate { .. } => {},
        _ => {
            lemma_mod_self_0(size_of(r) as int);
        },
    }
}

/// What holds of members laid out one after another.
pub proof fn lemma_members_layout(ms: Seq<Repr>)
    requires
        members_error(ms) is None,
    ensures
        members_end(ms) >= members_total(ms),
        forall|i: int| 0 <= i < ms.len() ==> align_of(#[trigger] ms[i]) <= members_align(ms),
        ms.len() > 0 ==> exists|i: int| 0 <= i < ms.len() && align_of(ms[i]) == members_align(ms),
        members_align(ms) == 0 || power_of_two(members_align(ms)),
        members_align(ms) == 0 <==> members_end(ms) == 0,
    decreases ms.len(),
{
    if ms.len() > 0 {
        let front = ms.drop_last();
        let last = ms.last();
        lemma_members_layout(front);
        lemma_layout_shape(last);
        if align_of(last) > 0 {
            lemma_align_up(members_end(front), align_of(last));
        }
        assert forall|i: int| 0 <= i < ms.len() implies align_of(#[trigger] ms[i])
            <= members_align(ms) by {
            if i < ms.len() - 1 {
                assert(ms[i] == front[i]);
            }
        }
        if align_of(last) > members_align(front) || front.len() == 0 {
            assert(align_of(ms[ms.len() - 1]) == members_align(ms));
        } else {
            let i = choose|i: int| 0 <= i < front.len() && align_of(front[i]) == members_align(
                front,
            );
            assert(ms[i] == front[i]);
        }
    }
}

/// Layout of an aggregate built from members: its size is at least the sum
/// of the member sizes, and its alignment is the largest member alignment.
pub proof fn lemma_built_aggregate_layout(ms: Seq<Repr>, r: Repr)
    requires
        spec_aggregate_of(ms) == Ok::<Repr, WellFormednessError>(r),
    ensures
        spec_layout_of(r) is Ok,
        size_of(r) == aggregate_size(ms),
        align_of(r) == members_align(ms),
        size_of(r) >= members_total(ms),
        forall|i: int| 0 <= i < ms.len() ==> align_of(#[trigger] ms[i]) <= align_of(r),
        ms.len() > 0 ==> exists|i: int| 0 <= i < ms.len() && align_of(ms[i]) == align_of(r),
        ms.len() == 0 ==> align_of(r) == 0 && size_of(r) == 0,
{
    lemma_members_layout(ms);
    let a = members_align(ms);
    if a > 0 {
        lemma_align_up(members_end(ms), a);
    }
    if a > 0 && aggregate_size(ms) < a {
        lemma_small_mod(aggregate_size(ms), a);
    }
}

/// The class of `r`.
pub fn base_kind(r: Repr) -> (k: BaseKind)
    ensures
        k == spec_base_kind(r),
{
    match r {
        Repr::Int(_) => BaseKind::Integer,
        Repr::Float(_) => BaseKind::Float,
        Repr::Pointer => BaseKind::Pointer,
        Repr::Aggregate { .. } => BaseKind::Aggregate,
    }
}

/// Whether `r` has a layout.
pub fn has_layout(r: Repr) -> (b: bool)
    ensures
        b == well_formed(r),
{
    layout_of(r).is_ok()
}

/// Whether `n` is a power of two.
pub fn is_power_of_two(n: u64) -> (b: bool)
    ensures
        b == power_of_two(n as nat),
{
    if n == 0 {
        return false;
    }
    let mut x: u64 = n;
    while x % 2 == 0
        invariant
            x > 0,
            power_of_two(x as nat) == power_of_two(n as nat),
        decreases x,
    {
        x = x / 2;
    }
    x == 1
}

/// `offset` rounded up to a multiple of `align`, unless that exceeds 64 bits.
pub fn checked_align_up(offset: u64, align: u64) -> (r: Option<u64>)
    ensures
        r == if align_up(offset as nat, align as nat) > u64::MAX {
            None
        } else {
            Some(align_up(offset as nat, align as nat) as u64)
        },
{
    if align == 0 {
        return Some(offset);
    }
    let rem: u64 = offset % align;
    if rem == 0 {
        Some(offset)
    } else {
        offset.checked_add(align - rem)
    }
}

/// Size and alignment of `r`.
///
/// Fails for an integer or floating-point width that does not exist and for
/// an aggregate whose size and alignment contradict each other, such as a
/// zero-sized aggregate with an alignment.
pub fn layout_of(r: Repr) -> (l: Result<Layout, WellFormednessError>)
    ensures
        l == spec_layout_of(r),
{
    match r {
        Repr::Int(bits) => {
            if bits == 8 || bits == 16 || bits == 32 || bits == 64 {
                let bytes: u64 = (bits / 8) as u64;
                Ok(Layout { size: bytes, align: bytes })
            } else {
                Err(WellFormednessError::UnsupportedWidth)
            }
        },
        Repr::Float(bits) => {
            if bits == 32 || bits == 64 {
                let bytes: u64 = (bits / 8) as u64;
                Ok(Layout { size: bytes, align: bytes })
            } else {
                Err(WellFormednessError::UnsupportedWidth)
            }
        },
        Repr::Pointer => Ok(Layout { size: POINTER_BYTES, align: POINTER_BYTES }),
        Repr::Aggregate { size, align } => {
            let empty = size == 0 && align == 0;
            if empty || (size > 0 && is_power_of_two(align) && size % align == 0) {
                Ok(Layout { size, align })
            } else {
                Err(WellFormednessError::IllFormedAggregate)
            }
        },
    }
}

/// The aggregate whose members are `members`, in that order.
///
/// Fails with the error of the first member that has no layout, and with
/// `TooLarge` where the members have layouts but the padded size exceeds 64
/// bits.
pub fn aggregate_of(members: &Vec<Repr>) -> (r: Result<Repr, WellFormednessError>)
    ensures
        r == spec_aggregate_of(members@),
{
    let n = members.len();
    let mut end: u64 = 0;
    let mut align: u64 = 0;
    let mut too_large = false;
    let mut i: usize = 0;
    while i < n
        invariant
            i <= n,
            n == members@.len(),
            members_error(members@.take(i as int)) is None,
            members_align(members@.take(i as int)) == align,
            !too_large ==> members_end(members@.take(i as int)) == end,
            too_large ==> members_end(members@.take(i as int)) > u64::MAX,
        decreases n - i,
    {
        proof {
            assert(members@.take(i + 1).drop_last() =~= members@.take(i as int));
            assert(members@.take(i + 1).last() == members@[i as int]);
        }
        match layout_of(members[i]) {
            Err(e) => {
                proof {
                    lemma_members_error_prefix(members@, i + 1, e);
                }
                return Err(e);
            },
            Ok(l) => {
                proof {
                    if l.align > 0 {
                        lemma_align_up(members_end(members@.take(i as int)), l.align as nat);
                    }
                }
                if !too_large {
                    match checked_align_up(end, l.align) {
                        None => {
                            too_large = true;
                        },
                        Some(start) => match start.checked_add(l.size) {
                            None => {
                                too_large = true;
                            },
                            Some(next) => {
                                end = next;
                            },
                        },
                    }
                }
                if l.align > align {
                    align = l.align;
                }
            },
        }
        i += 1;
    }
    proof {
        assert(members@.take(n as int) =~= members@);
        if align > 0 {
            lemma_align_up(members_end(members@), align as nat);
        }
    }
    if too_large {
        return Err(WellFormednessError::TooLarge);
    }
    match checked_align_up(end, align) {
        None => Err(WellFormednessError::TooLarge),
        Some(size) => Ok(Repr::Aggregate { size, align }),
    }
}

} // verus!
