//! The register: a stack of frames that bind names to values and functions.
use crate::statement::Statement;
use crate::value::NaslValue;
use vstd::prelude::*;

verus! {

/// What a name is bound to.
#[derive(Debug, PartialEq, Eq)]
pub enum ContextType {
    /// A user function: parameter names and body
    Function(Vec<String>, Statement),
    /// A value
    Value(NaslValue),
}

/// The position of the first binding of `key` in `frame` at or after `i`.
pub open spec fn key_index(frame: Seq<(String, ContextType)>, key: Seq<char>, i: int) -> Option<int>
    decreases frame.len() - i,
{
    if i < 0 || i >= frame.len() {
        None
    } else if frame[i].0@ == key {
        Some(i)
    } else {
        key_index(frame, key, i + 1)
    }
}

/// `new` is `old` with `key` bound to `slot`: the first binding of `key` is
/// replaced, or a binding is added at the end.
pub open spec fn rebinds(
    old: Seq<(String, ContextType)>,
    new: Seq<(String, ContextType)>,
    key: Seq<char>,
    slot: ContextType,
) -> bool {
    match key_index(old, key, 0) {
        Some(j) => new == old.update(j, (old[j].0, slot)),
        None => {
            &&& new.len() == old.len() + 1
            &&& new.drop_last() == old
            &&& new.last().0@ == key
            &&& new.last().1 == slot
        },
    }
}

/// The innermost frame below `top` that binds `key`, with the binding's
/// position in it.
pub open spec fn find_named(frames: Seq<Seq<(String, ContextType)>>, key: Seq<char>, top: int) -> Option<(int, int)>
    decreases top,
{
    if top <= 0 {
        None
    } else {
        match key_index(frames[top - 1], key, 0) {
            Some(j) => Some((top - 1, j)),
            None => find_named(frames, key, top - 1),
        }
    }
}

/// A stack of frames; frame 0 holds the globals.
pub struct Register {
    frames: Vec<Vec<(String, ContextType)>>,
}

proof fn lemma_key_index_bounds(frame: Seq<(String, ContextType)>, key: Seq<char>, i: int)
    requires
        0 <= i,
    ensures
        key_index(frame, key, i) is Some ==> i <= key_index(frame, key, i)->Some_0 < frame.len()
            && frame[key_index(frame, key, i)->Some_0].0@ == key,
    decreases frame.len() - i,
{
    if i < frame.len() && frame[i].0@ != key {
        lemma_key_index_bounds(frame, key, i + 1);
    }
}

proof fn lemma_find_named_bounds(frames: Seq<Seq<(String, ContextType)>>, key: Seq<char>, top: int)
    requires
        top <= frames.len(),
    ensures
        find_named(frames, key, top) is Some ==> ({
            let (f, j) = find_named(frames, key, top)->Some_0;
            0 <= f < top && 0 <= j < frames[f].len() && frames[f][j].0@ == key
        }),
    decreases top,
{
    if top > 0 {
        lemma_key_index_bounds(frames[top - 1], key, 0);
        lemma_find_named_bounds(frames, key, top - 1);
    }
}

fn str_eq(a: &str, b: &str) -> (r: bool)
    ensures
        r == (a@ == b@),
{
    let x = crate::value::chars_of(a);
    let y = crate::value::chars_of(b);
    if x.len() != y.len() {
        return false;
    }
    let mut i: usize = 0;
    while i < x.len()
        invariant
            x@ == a@,
            y@ == b@,
            x@.len() == y@.len(),
            i <= x@.len(),
            forall|k: int| 0 <= k < i ==> x@[k] == y@[k],
        decreases x@.len() - i,
    {
        if x[i] != y[i] {
            return false;
        }
        i = i + 1;
    }
    assert(x@ =~= y@);
    true
}

fn key_index_exec(frame: &Vec<(String, ContextType)>, key: &str) -> (r: Option<usize>)
    ensures
        match key_index(frame@, key@, 0) {
            Some(j) => r is Some && r->Some_0 as int == j,
            None => r is None,
        },
{
    proof {
        lemma_key_index_bounds(frame@, key@, 0);
    }
    let mut i: usize = 0;
    while i < frame.len()
        invariant
            i <= frame@.len(),
            key_index(frame@, key@, 0) == key_index(frame@, key@, i as int),
        decreases frame@.len() - i,
    {
        if str_eq(frame[i].0.as_str(), key) {
            return Some(i);
        }
        i = i + 1;
    }
    None
}

impl Register {
    /// The root frame is always there.
    pub closed spec fn wf(self) -> bool {
        self.frames@.len() >= 1
    }

    /// The frames, outermost first.
    pub closed spec fn frames(self) -> Seq<Seq<(String, ContextType)>> {
        self.frames@.map_values(|f: Vec<(String, ContextType)>| f@)
    }

    /// A register whose root frame holds `initial`.
    pub fn create_root(initial: Vec<(String, ContextType)>) -> (r: Register)
        ensures
            r.wf(),
            r.frames() == seq![initial@],
    {
        let mut frames: Vec<Vec<(String, ContextType)>> = Vec::new();
        frames.push(initial);
        let r = Register { frames };
        assert(r.frames() =~= seq![initial@]);
        r
    }

    /// How many frames there are.
    pub fn depth(&self) -> (r: usize)
        requires
            self.wf(),
        ensures
            r == self.frames().len(),
            r >= 1,
    {
        self.frames.len()
    }

    /// Pushes an empty frame.
    pub fn create_child(&mut self)
        requires
            old(self).wf(),
        ensures
            final(self).wf(),
            final(self).frames() == old(self).frames().push(Seq::empty()),
    {
        self.frames.push(Vec::new());
        assert(self.frames() =~= old(self).frames().push(Seq::empty()));
    }

    /// Pops the innermost frame; the root frame stays.
    pub fn drop_frame(&mut self)
        requires
            old(self).wf(),
        ensures
            final(self).wf(),
            old(self).frames().len() > 1 ==> final(self).frames() == old(self).frames().drop_last(),
            old(self).frames().len() <= 1 ==> final(self).frames() == old(self).frames(),
    {
        if self.frames.len() > 1 {
            self.frames.pop();
            assert(self.frames() =~= old(self).frames().drop_last());
        }
    }

    /// The innermost binding of `key`: its frame and the bound slot.
    pub fn index_named(&self, key: &str) -> (r: Option<(usize, &ContextType)>)
        ensures
            match find_named(self.frames(), key@, self.frames().len() as int) {
                Some((f, j)) => r is Some && r->Some_0.0 == f && *r->Some_0.1 == self.frames()[f][j].1,
                None => r is None,
            },
    {
        proof {
            lemma_find_named_bounds(self.frames(), key@, self.frames().len() as int);
        }
        let mut top = self.frames.len();
        while top > 0
            invariant
                top <= self.frames@.len(),
                find_named(self.frames(), key@, self.frames().len() as int) == find_named(
                    self.frames(),
                    key@,
                    top as int,
                ),
            decreases top,
        {
            assert(self.frames()[top - 1] == self.frames@[top - 1]@);
            match key_index_exec(&self.frames[top - 1], key) {
                Some(j) => {
                    proof {
                        lemma_key_index_bounds(self.frames@[top - 1]@, key@, 0);
                        assert(find_named(self.frames(), key@, top as int) == Some(
                            ((top - 1) as int, j as int),
                        ));
                    }
                    return Some((top - 1, &self.frames[top - 1][j].1));
                },
                None => {
                    top = top - 1;
                },
            }
        }
        None
    }

    /// Binds `key` to `slot` in frame `idx`, replacing an earlier binding there.
    pub fn add_to_index(&mut self, idx: usize, key: &str, slot: ContextType)
        requires
            idx < old(self).frames().len(),
        ensures
            old(self).wf() ==> final(self).wf(),
            final(self).frames().len() == old(self).frames().len(),
            forall|f: int|
                0 <= f < old(self).frames().len() && f != idx ==> #[trigger] final(self).frames()[f]
                    == old(self).frames()[f],
            final(self).frames()[idx as int].len() >= 1,
            rebinds(old(self).frames()[idx as int], final(self).frames()[idx as int], key@, slot),
    {
        proof {
            lemma_key_index_bounds(self.frames@[idx as int]@, key@, 0);
        }
        let mut frame = self.frames.remove(idx);
        assert(frame@ == old(self).frames()[idx as int]);
        match key_index_exec(&frame, key) {
            Some(j) => {
                let (name, _) = frame.remove(j);
                frame.insert(j, (name, slot));
                assert(frame@ =~= old(self).frames()[idx as int].update(
                    j as int,
                    (old(self).frames()[idx as int][j as int].0, slot),
                ));
            },
            None => {
                frame.push((key.to_owned(), slot));
            },
        }
        let ghost nf = frame@;
        let ghost before = self.frames@;
        self.frames.insert(idx, frame);
        proof {
            assert(self.frames@ =~= old(self).frames@.update(idx as int, self.frames@[idx as int]));
            assert(self.frames()[idx as int] == nf);
            assert(self.frames().len() == old(self).frames().len());
            if key_index(old(self).frames()[idx as int], key@, 0) is None {
                assert(nf.drop_last() =~= old(self).frames()[idx as int]);
            }
            assert forall|f: int|
                0 <= f < old(self).frames().len() && f != idx implies #[trigger] self.frames()[f]
                    == old(self).frames()[f] by {}
        }
    }

    /// Binds `key` in the innermost frame.
    pub fn add_local(&mut self, key: &str, slot: ContextType)
        requires
            old(self).wf(),
        ensures
            final(self).wf(),
            final(self).frames().len() == old(self).frames().len(),
            forall|f: int|
                0 <= f < old(self).frames().len() - 1 ==> #[trigger] final(self).frames()[f]
                    == old(self).frames()[f],
            rebinds(
                old(self).frames().last(),
                final(self).frames().last(),
                key@,
                slot,
            ),
    {
        let idx = self.frames.len() - 1;
        self.add_to_index(idx, key, slot);
    }

    /// Binds `key` in the root frame.
    pub fn add_global(&mut self, key: &str, slot: ContextType)
        requires
            old(self).wf(),
        ensures
            final(self).wf(),
            final(self).frames().len() == old(self).frames().len(),
            forall|f: int|
                1 <= f < old(self).frames().len() ==> #[trigger] final(self).frames()[f]
                    == old(self).frames()[f],
            rebinds(old(self).frames()[0], final(self).frames()[0], key@, slot),
    {
        self.add_to_index(0, key, slot);
    }

    /// The innermost slot bound to `key`.
    pub fn named(&self, key: &str) -> (r: Option<&ContextType>)
        ensures
            match find_named(self.frames(), key@, self.frames().len() as int) {
                Some((f, j)) => r is Some && *r->Some_0 == self.frames()[f][j].1,
                None => r is None,
            },
    {
        match self.index_named(key) {
            Some((_, slot)) => Some(slot),
            None => None,
        }
    }
}


/// A register that keeps its root frame has a frame.
pub proof fn lemma_frames_nonempty(r: Register)
    requires
        r.wf(),
    ensures
        r.frames().len() >= 1,
{
}

/// The frame of a binding found by name is one of the register's frames.
pub proof fn lemma_find_named_in_range(r: Register, key: Seq<char>)
    ensures
        find_named(r.frames(), key, r.frames().len() as int) is Some ==> find_named(
            r.frames(),
            key,
            r.frames().len() as int,
        )->Some_0.0 < r.frames().len(),
{
    lemma_find_named_bounds(r.frames(), key, r.frames().len() as int);
}

} // verus!
