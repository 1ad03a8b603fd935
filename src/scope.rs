use vstd::prelude::*;

use crate::error::ParseErrorKind;
use crate::syntax_tree::ValueType;

verus! {

/// A stack of frames, innermost last; each frame maps names to types.
pub type Frames = Seq<Map<Seq<char>, ValueType>>;

/// The type bound to `name`: the innermost frame that holds it decides.
pub open spec fn lookup(fr: Frames, name: Seq<char>) -> Option<ValueType>
    decreases fr.len(),
{
    if fr.len() == 0 {
        None
    } else if fr.last().contains_key(name) {
        Some(fr.last()[name])
    } else {
        lookup(fr.drop_last(), name)
    }
}

/// Whether the innermost frame already binds `name`.
pub open spec fn declared_here(fr: Frames, name: Seq<char>) -> bool {
    fr.len() > 0 && fr.last().contains_key(name)
}

/// The frames after binding `name` to `t` in the innermost one.
pub open spec fn bind(fr: Frames, name: Seq<char>, t: ValueType) -> Frames {
    fr.update(fr.len() - 1, fr.last().insert(name, t))
}

/// The map that a frame's entries describe.
pub open spec fn frame_map(f: Seq<(String, ValueType)>) -> Map<Seq<char>, ValueType>
    decreases f.len(),
{
    if f.len() == 0 {
        Map::empty()
    } else {
        frame_map(f.drop_last()).insert(f.last().0@, f.last().1)
    }
}

pub open spec fn distinct_names(f: Seq<(String, ValueType)>) -> bool {
    forall|i: int, j: int| 0 <= i < j < f.len() ==> f[i].0@ != f[j].0@
}

proof fn lemma_frame_map(f: Seq<(String, ValueType)>, k: Seq<char>)
    requires
        distinct_names(f),
    ensures
        frame_map(f).contains_key(k) <==> exists|i: int| 0 <= i < f.len() && f[i].0@ == k,
        forall|i: int| 0 <= i < f.len() && f[i].0@ == k ==> frame_map(f)[k] == f[i].1,
    decreases f.len(),
{
    if f.len() > 0 {
        let g = f.drop_last();
        lemma_frame_map(g, k);
        if frame_map(f).contains_key(k) && k != f.last().0@ {
            let i = choose|i: int| 0 <= i < g.len() && g[i].0@ == k;
            assert(f[i].0@ == k);
        }
        if exists|i: int| 0 <= i < f.len() && f[i].0@ == k {
            let i = choose|i: int| 0 <= i < f.len() && f[i].0@ == k;
            if i < f.len() - 1 {
                assert(g[i].0@ == k);
            }
        }
        assert forall|i: int| 0 <= i < f.len() && f[i].0@ == k implies frame_map(f)[k] == f[i].1 by {
            if i < f.len() - 1 {
                assert(g[i] == f[i]);
            }
        }
    }
}

/// Name resolution during parsing: one frame per open block.
pub struct Scope {
    frames: Vec<Vec<(String, ValueType)>>,
}

impl View for Scope {
    type V = Frames;

    closed spec fn view(&self) -> Frames {
        self.frames@.map_values(|f: Vec<(String, ValueType)>| frame_map(f@))
    }
}

impl Scope {
    /// Every frame lists each name once, and the outermost frame is always there.
    pub closed spec fn wf(&self) -> bool {
        &&& self.frames@.len() >= 1
        &&& forall|i: int| 0 <= i < self.frames@.len() ==> distinct_names(#[trigger] self.frames@[i]@)
    }

    /// A well-formed scope has at least its outermost frame.
    pub proof fn lemma_has_frame(&self)
        requires
            self.wf(),
        ensures
            self@.len() >= 1,
    {
    }

    /// The number of open frames.
    pub fn depth(&self) -> (r: usize)
        ensures
            r == self@.len(),
    {
        self.frames.len()
    }

    /// One empty frame.
    pub fn new() -> (r: Scope)
        ensures
            r.wf(),
            r@ == seq![Map::<Seq<char>, ValueType>::empty()],
    {
        let mut frames: Vec<Vec<(String, ValueType)>> = Vec::new();
        frames.push(Vec::new());
        let r = Scope { frames };
        assert(r@ =~= seq![Map::<Seq<char>, ValueType>::empty()]);
        r
    }

    /// Opens a nested frame.
    pub fn push(&mut self)
        requires
            old(self).wf(),
        ensures
            final(self).wf(),
            final(self)@ == old(self)@.push(Map::empty()),
    {
        self.frames.push(Vec::new());
        assert(self@ =~= old(self)@.push(Map::empty()));
    }

    /// Discards the innermost frame; the outermost one is never discarded.
    pub fn pop(&mut self)
        requires
            old(self).wf(),
            old(self)@.len() > 1,
        ensures
            final(self).wf(),
            final(self)@ == old(self)@.drop_last(),
    {
        let _ = self.frames.pop();
        assert(self@ =~= old(self)@.drop_last());
    }

    /// Binds `name` to `t` in the innermost frame; a name that frame already
    /// binds is refused and nothing changes.
    pub fn declare(&mut self, name: String, t: ValueType) -> (r: Result<(), ParseErrorKind>)
        requires
            old(self).wf(),
        ensures
            final(self).wf(),
            declared_here(old(self)@, name@) ==> r == Err::<(), _>(ParseErrorKind::DuplicateBinding)
                && final(self)@ == old(self)@,
            !declared_here(old(self)@, name@) ==> r is Ok && final(self)@ == bind(old(self)@, name@, t),
    {
        let ghost old_frames = self.frames@;
        let mut frame = self.frames.pop().unwrap();
        proof {
            lemma_frame_map(frame@, name@);
            assert(old_frames.last() == frame);
            assert(old(self)@.last() == frame_map(frame@));
        }
        let mut i: usize = 0;
        while i < frame.len()
            invariant
                0 <= i <= frame@.len(),
                forall|j: int| 0 <= j < i ==> frame@[j].0@ != name@,
                self.frames@ == old_frames.drop_last(),
                old_frames.last() == frame,
                old_frames == old(self).frames@,
                old(self).wf(),
                old(self)@.last() == frame_map(frame@),
                frame_map(frame@).contains_key(name@) <==> exists|j: int|
                    0 <= j < frame@.len() && frame@[j].0@ == name@,
            decreases frame@.len() - i,
        {
            if frame[i].0 == name {
                self.frames.push(frame);
                assert(self.frames@ =~= old_frames);
                return Err(ParseErrorKind::DuplicateBinding);
            }
            i = i + 1;
        }
        let ghost before = frame@;
        frame.push((name, t));
        proof {
            assert(frame@.drop_last() =~= before);
            assert(distinct_names(frame@));
        }
        self.frames.push(frame);
        assert(self@ =~= bind(old(self)@, name@, t));
        Ok(())
    }

    /// The type bound to `name` by the innermost frame that binds it.
    pub fn resolve(&self, name: &String) -> (r: Result<ValueType, ParseErrorKind>)
        requires
            self.wf(),
        ensures
            r == (match lookup(self@, name@) {
                Some(t) => Ok(t),
                None => Err(ParseErrorKind::UnresolvedName),
            }),
    {
        let mut k: usize = self.frames.len();
        assert(self@.subrange(0, k as int) =~= self@);
        while k > 0
            invariant
                0 <= k <= self.frames@.len(),
                self.wf(),
                lookup(self@, name@) == lookup(self@.subrange(0, k as int), name@),
            decreases k,
        {
            let frame = &self.frames[k - 1];
            proof {
                lemma_frame_map(frame@, name@);
                assert(self@.subrange(0, k as int).drop_last() =~= self@.subrange(0, k - 1));
                assert(self@.subrange(0, k as int).last() == frame_map(frame@));
            }
            let mut i: usize = 0;
            while i < frame.len()
                invariant
                    0 <= i <= frame@.len(),
                    forall|j: int| 0 <= j < i ==> frame@[j].0@ != name@,
                    0 < k <= self.frames@.len(),
                    self.wf(),
                    *frame == self.frames@[k - 1],
                    lookup(self@, name@) == lookup(self@.subrange(0, k as int), name@),
                    self@.subrange(0, k as int).drop_last() =~= self@.subrange(0, k - 1),
                    self@.subrange(0, k as int).last() == frame_map(frame@),
                    frame_map(frame@).contains_key(name@) <==> exists|j: int|
                        0 <= j < frame@.len() && frame@[j].0@ == name@,
                    forall|j: int|
                        0 <= j < frame@.len() && frame@[j].0@ == name@ ==> frame_map(frame@)[name@]
                            == frame@[j].1,
                decreases frame@.len() - i,
            {
                if frame[i].0 == *name {
                    return Ok(frame[i].1);
                }
                i = i + 1;
            }
            k = k - 1;
        }
        assert(self@.subrange(0, 0).len() == 0);
        Err(ParseErrorKind::UnresolvedName)
    }
}

} // verus!
