//! The lexically scoped variable context. A render call owns a stack of
//! frames; the innermost frame is the last one, and lookups walk the stack
//! from the innermost frame outwards.

use vstd::prelude::*;

verus! {

use crate::strmap::Entries;
use crate::strmap::RecordsV;
use crate::strmap::SeqMap;
use crate::strmap::StrMap;
use crate::strmap::assoc_get;
use crate::strmap::assoc_put_all;

/// View of one scope frame: its string entries and its record sequences.
pub type FrameV = (Entries, Seq<(Seq<char>, RecordsV)>);

/// One scope: local string bindings and local record sequences.
pub struct Frame {
    pub strings: StrMap,
    pub seqs: SeqMap,
}

impl View for Frame {
    type V = FrameV;

    open spec fn view(&self) -> FrameV {
        (self.strings@, self.seqs@)
    }
}

impl DeepView for Frame {
    type V = FrameV;

    open spec fn deep_view(&self) -> FrameV {
        self.view()
    }
}

impl Frame {
    pub fn new() -> (r: Frame)
        ensures
            r@.0 == Seq::<(Seq<char>, Seq<char>)>::empty(),
            r@.1 == Seq::<(Seq<char>, RecordsV)>::empty(),
    {
        Frame { strings: StrMap::new(), seqs: SeqMap::new() }
    }
}

/// The string bound to `k` in the innermost frame that binds it.
pub open spec fn lookup_str(frames: Seq<FrameV>, k: Seq<char>) -> Option<Seq<char>>
    decreases frames.len(),
{
    if frames.len() == 0 {
        None
    } else {
        match assoc_get(frames.last().0, k) {
            Some(v) => Some(v),
            None => lookup_str(frames.drop_last(), k),
        }
    }
}

/// The record sequence bound to `k` in the innermost frame that binds it.
pub open spec fn lookup_records(frames: Seq<FrameV>, k: Seq<char>) -> Option<RecordsV>
    decreases frames.len(),
{
    if frames.len() == 0 {
        None
    } else {
        match assoc_get(frames.last().1, k) {
            Some(v) => Some(v),
            None => lookup_records(frames.drop_last(), k),
        }
    }
}

/// The chain of scopes that one render call consults, innermost frame last.
pub struct TemplateContext {
    frames: Vec<Frame>,
}

impl View for TemplateContext {
    type V = Seq<FrameV>;

    closed spec fn view(&self) -> Seq<FrameV> {
        self.frames.deep_view()
    }
}

impl TemplateContext {
    /// A chain holding one empty root frame.
    pub fn new() -> (r: TemplateContext)
        ensures
            r@ =~= seq![
                (
                    Seq::<(Seq<char>, Seq<char>)>::empty(),
                    Seq::<(Seq<char>, RecordsV)>::empty(),
                ),
            ],
    {
        let mut frames: Vec<Frame> = Vec::new();
        frames.push(Frame::new());
        let r = TemplateContext { frames };
        assert(r@ =~= seq![
            (Seq::<(Seq<char>, Seq<char>)>::empty(), Seq::<(Seq<char>, RecordsV)>::empty()),
        ]);
        r
    }

    pub fn depth(&self) -> (r: usize)
        ensures
            r == self@.len(),
    {
        self.frames.len()
    }

    /// Opens a fresh innermost scope.
    pub fn push_frame(&mut self)
        ensures
            final(self)@ == old(self)@.push(
                (Seq::<(Seq<char>, Seq<char>)>::empty(), Seq::<(Seq<char>, RecordsV)>::empty()),
            ),
    {
        let ghost pre = self.frames;
        self.frames.push(Frame::new());
        proof {
            crate::strmap::lemma_deep_view_push(pre, self.frames, self.frames@.last());
        }
    }

    /// Closes the innermost scope.
    pub fn pop_frame(&mut self)
        requires
            old(self)@.len() > 0,
        ensures
            final(self)@ == old(self)@.drop_last(),
    {
        let _ = self.frames.pop();
        proof {
            assert(self@ =~= old(self)@.drop_last());
        }
    }

    /// Binds a string in the innermost scope.
    pub fn set_string(&mut self, k: String, v: String)
        requires
            old(self)@.len() > 0,
        ensures
            final(self)@ == old(self)@.update(
                old(self)@.len() - 1,
                (
                    crate::strmap::assoc_put(old(self)@.last().0, k@, v@),
                    old(self)@.last().1,
                ),
            ),
    {
        let ghost gk = k@;
        let ghost gv = v@;
        let n = self.frames.len();
        let f = &mut self.frames[n - 1];
        f.strings.insert(k, v);
        proof {
            assert(self@ =~= old(self)@.update(
                old(self)@.len() - 1,
                (crate::strmap::assoc_put(old(self)@.last().0, gk, gv), old(self)@.last().1),
            ));
        }
    }

    /// Binds a record sequence in the innermost scope.
    pub fn set_records(&mut self, k: String, v: Vec<StrMap>)
        requires
            old(self)@.len() > 0,
        ensures
            final(self)@ == old(self)@.update(
                old(self)@.len() - 1,
                (
                    old(self)@.last().0,
                    crate::strmap::assoc_put(old(self)@.last().1, k@, v.deep_view()),
                ),
            ),
    {
        let ghost gk = k@;
        let ghost gv = v.deep_view();
        let n = self.frames.len();
        let f = &mut self.frames[n - 1];
        f.seqs.insert(k, v);
        proof {
            assert(self@ =~= old(self)@.update(
                old(self)@.len() - 1,
                (old(self)@.last().0, crate::strmap::assoc_put(old(self)@.last().1, gk, gv)),
            ));
        }
    }

    /// Puts every front-matter entry into the innermost scope, in order.
    pub fn add_front_matter(&mut self, front_matter: &StrMap)
        requires
            old(self)@.len() > 0,
        ensures
            final(self)@ == old(self)@.update(
                old(self)@.len() - 1,
                (
                    assoc_put_all(old(self)@.last().0, front_matter@),
                    old(self)@.last().1,
                ),
            ),
    {
        let ghost gf = front_matter@;
        let n = self.frames.len();
        let f = &mut self.frames[n - 1];
        f.strings.extend_from(front_matter);
        proof {
            assert(self@ =~= old(self)@.update(
                old(self)@.len() - 1,
                (assoc_put_all(old(self)@.last().0, gf), old(self)@.last().1),
            ));
        }
    }

    /// The string entries of the frame at position `i`, for substitution.
    pub fn strings_at(&self, i: usize) -> (r: &StrMap)
        requires
            i < self@.len(),
        ensures
            r@ == self@[i as int].0,
    {
        &self.frames[i].strings
    }

    /// Chain lookup of a string binding.
    pub fn get_string(&self, k: &str) -> (r: Option<String>)
        ensures
            match r {
                Some(v) => lookup_str(self@, k@) == Some(v@),
                None => lookup_str(self@, k@) is None,
            },
    {
        let n = self.frames.len();
        let mut i: usize = n;
        assert(self@.subrange(0, n as int) =~= self@);
        while i > 0
            invariant
                n == self@.len(),
                i <= n,
                lookup_str(self@, k@) == lookup_str(self@.subrange(0, i as int), k@),
            decreases i,
        {
            let ghost head = self@.subrange(0, i as int);
            assert(head.last() == self@[i - 1]);
            assert(head.drop_last() =~= self@.subrange(0, i - 1));
            let v = self.frames[i - 1].strings.get(k);
            if v.is_some() {
                return v;
            }
            i -= 1;
        }
        assert(self@.subrange(0, 0) =~= Seq::<FrameV>::empty());
        None
    }

    /// Chain lookup of a record sequence.
    pub fn get_records(&self, k: &str) -> (r: Option<Vec<StrMap>>)
        ensures
            match r {
                Some(v) => lookup_records(self@, k@) == Some(v.deep_view()),
                None => lookup_records(self@, k@) is None,
            },
    {
        let n = self.frames.len();
        let mut i: usize = n;
        assert(self@.subrange(0, n as int) =~= self@);
        while i > 0
            invariant
                n == self@.len(),
                i <= n,
                lookup_records(self@, k@) == lookup_records(self@.subrange(0, i as int), k@),
            decreases i,
        {
            let ghost head = self@.subrange(0, i as int);
            assert(head.last() == self@[i - 1]);
            assert(head.drop_last() =~= self@.subrange(0, i - 1));
            let v = self.frames[i - 1].seqs.get(k);
            if v.is_some() {
                return v;
            }
            i -= 1;
        }
        assert(self@.subrange(0, 0) =~= Seq::<FrameV>::empty());
        None
    }
}

} // verus!
