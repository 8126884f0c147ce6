//! Global data: declarations and their initializers.
use vstd::prelude::*;
use crate::layout::{
    align_up, checked_align_up, layout_of, lemma_align_up, size_of, spec_layout_of, Repr,
    WellFormednessError, POINTER_BYTES,
};
use crate::name::Name;

verus! {

/// Whether a datum is visible outside its unit.
#[derive(Clone, Copy, Debug, PartialEq, Eq, Structural, Hash)]
pub enum Linkage {
    /// Visible in its own unit only.
    Internal,
    /// Visible to other units.
    Export,
}

/// One piece of an initializer.
#[derive(Clone, Copy, Debug, PartialEq, Eq, Structural, Hash)]
pub enum Fragment {
    /// A run of this many zero bytes.
    Zero(u64),
    /// A constant, stored as the given representation.
    Scalar(i64, Repr),
    /// The address of a symbol.
    SymbolRef(Name),
}

/// A global datum.
#[derive(Debug)]
pub struct Declaration {
    name: Name,
    linkage: Linkage,
    align: u64,
    fragments: Vec<Fragment>,
}

/// What a declaration is, as plain data.
pub struct DeclarationView {
    pub name: Name,
    pub linkage: Linkage,
    pub align: u64,
    pub fragments: Seq<Fragment>,
}

impl View for Declaration {
    type V = DeclarationView;

    closed spec fn view(&self) -> DeclarationView {
        DeclarationView {
            name: self.name,
            linkage: self.linkage,
            align: self.align,
            fragments: self.fragments@,
        }
    }
}

/// The bytes that `f` takes, or why it takes none.
pub open spec fn spec_fragment_size(f: Fragment) -> Result<u64, WellFormednessError> {
    match f {
        Fragment::Zero(n) => Ok(n),
        Fragment::Scalar(_, r) => match spec_layout_of(r) {
            Ok(l) => Ok(l.size),
            Err(e) => Err(e),
        },
        Fragment::SymbolRef(_) => Ok(POINTER_BYTES),
    }
}

/// The error of the first fragment that has no size, if there is one.
pub open spec fn fragments_error(fs: Seq<Fragment>) -> Option<WellFormednessError>
    decreases fs.len(),
{
    if fs.len() == 0 {
        None
    } else {
        match fragments_error(fs.drop_last()) {
            Some(e) => Some(e),
            None => match spec_fragment_size(fs.last()) {
                Ok(_) => None,
                Err(e) => Some(e),
            },
        }
    }
}

/// The sum of the fragment sizes, a fragment without size counting 0.
pub open spec fn fragments_total(fs: Seq<Fragment>) -> nat
    decreases fs.len(),
{
    if fs.len() == 0 {
        0
    } else {
        fragments_total(fs.drop_last()) + match spec_fragment_size(fs.last()) {
            Ok(n) => n as nat,
            Err(_) => 0nat,
        }
    }
}

impl DeclarationView {
    /// The bytes the datum takes: its fragments one after another with
    /// nothing between them, padded to the alignment of the datum.
    pub open spec fn padded_size(self) -> nat {
        align_up(fragments_total(self.fragments), self.align as nat)
    }

    /// The size of the datum, or why it has none.
    pub open spec fn spec_size(self) -> Result<u64, WellFormednessError> {
        match fragments_error(self.fragments) {
            Some(e) => Err(e),
            None => if self.padded_size() > u64::MAX {
                Err(WellFormednessError::TooLarge)
            } else {
                Ok(self.padded_size() as u64)
            },
        }
    }
}

/// The error of a prefix is the error of the whole initializer.
pub proof fn lemma_fragments_error_prefix(fs: Seq<Fragment>, k: int, e: WellFormednessError)
    requires
        0 <= k <= fs.len(),
        fragments_error(fs.take(k)) == Some(e),
    ensures
        fragments_error(fs) == Some(e),
    decreases fs.len() - k,
{
    if k == fs.len() {
        assert(fs.take(k) =~= fs);
    } else {
        assert(fs.take(k + 1).drop_last() =~= fs.take(k));
        lemma_fragments_error_prefix(fs, k + 1, e);
    }
}

/// The bytes that `f` takes.
pub fn fragment_size(f: Fragment) -> (r: Result<u64, WellFormednessError>)
    ensures
        r == spec_fragment_size(f),
{
    match f {
        Fragment::Zero(n) => Ok(n),
        Fragment::Scalar(_, r) => match layout_of(r) {
            Ok(l) => Ok(l.size),
            Err(e) => Err(e),
        },
        Fragment::SymbolRef(_) => Ok(POINTER_BYTES),
    }
}

impl Declaration {
    /// A datum without initializer fragments yet.
    pub fn new(name: Name, linkage: Linkage, align: u64) -> (d: Declaration)
        ensures
            d@ == (DeclarationView { name, linkage, align, fragments: Seq::<Fragment>::empty() }),
    {
        Declaration { name, linkage, align, fragments: Vec::new() }
    }

    /// Appends `fragment` after the fragments appended before.
    pub fn push(&mut self, fragment: Fragment)
        ensures
            final(self)@ == (DeclarationView {
                fragments: old(self)@.fragments.push(fragment),
                ..old(self)@
            }),
    {
        self.fragments.push(fragment);
    }

    /// The name of the datum.
    pub fn name(&self) -> (n: Name)
        ensures
            n == self@.name,
    {
        self.name
    }

    /// The visibility of the datum.
    pub fn linkage(&self) -> (l: Linkage)
        ensures
            l == self@.linkage,
    {
        self.linkage
    }

    /// The alignment of the datum in bytes.
    pub fn align(&self) -> (a: u64)
        ensures
            a == self@.align,
    {
        self.align
    }

    /// The initializer fragments, in order.
    pub fn fragments(&self) -> (fragments: &Vec<Fragment>)
        ensures
            fragments@ == self@.fragments,
    {
        &self.fragments
    }

    /// The bytes the datum takes.
    ///
    /// Fails with the error of the first scalar whose representation has no
    /// layout, and with `TooLarge` where every fragment has a size but the
    /// padded sum exceeds 64 bits.
    pub fn size(&self) -> (r: Result<u64, WellFormednessError>)
        ensures
            r == self@.spec_size(),
    {
        let n = self.fragments.len();
        let mut total: u64 = 0;
        let mut too_large = false;
        let mut i: usize = 0;
        while i < n
            invariant
                i <= n,
                n == self.fragments@.len(),
                fragments_error(self.fragments@.take(i as int)) is None,
                !too_large ==> fragments_total(self.fragments@.take(i as int)) == total,
                too_large ==> fragments_total(self.fragments@.take(i as int)) > u64::MAX,
            decreases n - i,
        {
            proof {
                assert(self.fragments@.take(i + 1).drop_last() =~= self.fragments@.take(i as int));
                assert(self.fragments@.take(i + 1).last() == self.fragments@[i as int]);
            }
            match fragment_size(self.fragments[i]) {
                Err(e) => {
                    proof {
                        lemma_fragments_error_prefix(self.fragments@, i + 1, e);
                    }
                    return Err(e);
                },
                Ok(bytes) => {
                    if !too_large {
                        match total.checked_add(bytes) {
                            None => {
                                too_large = true;
                            },
                            Some(next) => {
                                total = next;
                            },
                        }
                    }
                },
            }
            i += 1;
        }
        proof {
            assert(self.fragments@.take(n as int) =~= self.fragments@);
            if self.align > 0 {
                lemma_align_up(fragments_total(self.fragments@), self.align as nat);
            }
        }
        if too_large {
            return Err(WellFormednessError::TooLarge);
        }
        match checked_align_up(total, self.align) {
            None => Err(WellFormednessError::TooLarge),
            Some(size) => Ok(size),
        }
    }
}

} // verus!
