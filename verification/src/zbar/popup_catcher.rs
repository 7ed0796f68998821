//! Which popups have to close when another opens.

use vstd::prelude::*;

verus! {

/// A registered popup module.
#[derive(Clone, Copy, Debug, PartialEq, Eq, Structural)]
pub struct PopupKind(pub usize);

/// The registered popup modules, in the order in which they registered.
#[derive(Debug)]
pub struct PopupRegistry {
    entries: Vec<PopupKind>,
    next_id: usize,
}

impl PopupRegistry {
    /// The registered kinds.
    pub closed spec fn kinds(&self) -> Seq<PopupKind> {
        self.entries@
    }

    /// The number that the next kind gets.
    pub closed spec fn next(&self) -> usize {
        self.next_id
    }

    /// The kinds are numbered in the order of registration.
    pub open spec fn wf(&self) -> bool {
        &&& self.kinds().len() == self.next()
        &&& forall|i: int| 0 <= i < self.kinds().len() ==> (#[trigger] self.kinds()[i]).0 == i
    }

    /// A registry with nothing in it.
    pub fn new() -> (r: Self)
        ensures
            r.wf(),
            r.kinds().len() == 0,
    {
        PopupRegistry { entries: Vec::new(), next_id: 0 }
    }

    /// Registers a module and returns its kind, which no other module has.
    pub fn register(&mut self) -> (kind: PopupKind)
        requires
            old(self).wf(),
            old(self).next() < usize::MAX,
        ensures
            final(self).wf(),
            final(self).kinds() == old(self).kinds().push(kind),
            !old(self).kinds().contains(kind),
    {
        let kind = PopupKind(self.next_id);
        self.next_id = self.next_id + 1;
        self.entries.push(kind);
        kind
    }

    /// The modules to close before the one of `own` opens its popup: all
    /// others, in the order of registration.
    pub fn dismiss_others(&self, own: PopupKind) -> (r: Vec<PopupKind>)
        ensures
            r@ == self.kinds().filter(|k: PopupKind| k != own),
    {
        let mut out: Vec<PopupKind> = Vec::new();
        let ghost p = |k: PopupKind| k != own;
        let mut i: usize = 0;
        proof {
            reveal(Seq::filter);
            assert(self.kinds().take(0) == Seq::<PopupKind>::empty());
        }
        while i < self.entries.len()
            invariant
                i <= self.entries@.len(),
                p == (|k: PopupKind| k != own),
                out@ == self.entries@.take(i as int).filter(p),
            decreases self.entries.len() - i,
        {
            let k = self.entries[i];
            proof {
                reveal(Seq::filter);
                assert(self.entries@.take(i + 1).drop_last() == self.entries@.take(i as int));
            }
            if k != own {
                out.push(k);
            }
            i = i + 1;
        }
        proof {
            assert(self.entries@.take(i as int) == self.entries@);
        }
        out
    }
}

/// Opening a popup closes every other registered one and leaves the opener's
/// own alone.
pub proof fn law_only_the_opener_stays(reg: PopupRegistry, own: PopupKind, kind: PopupKind)
    requires
        reg.wf(),
        reg.kinds().contains(kind),
    ensures
        reg.kinds().filter(|k: PopupKind| k != own).contains(kind) == (kind != own),
{
    broadcast use vstd::seq_lib::group_filter_ensures;

    let p = |k: PopupKind| k != own;
    let i = choose|i: int| 0 <= i < reg.kinds().len() && reg.kinds()[i] == kind;
    if kind != own {
        assert(p(reg.kinds()[i]));
        assert(reg.kinds().filter(p).contains(reg.kinds()[i]));
    } else {
        if reg.kinds().filter(p).contains(kind) {
            let j = choose|j: int|
                0 <= j < reg.kinds().filter(p).len() && reg.kinds().filter(p)[j] == kind;
            assert(p(reg.kinds().filter(p)[j]));
        }
    }
}

} // verus!
