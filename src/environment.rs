//! Lexically scoped bindings: a stack of frames, innermost last.

use vstd::prelude::*;
use crate::ast::{keys_unique, find_key, Value, ValueMap};

verus! {

/// `m` after binding `k` to `v`: an existing entry for `k` is replaced in
/// place, otherwise the entry goes at the end.
pub open spec fn entries_insert(m: Seq<(String, Value)>, k: String, v: Value) -> Seq<(String, Value)> {
    match find_key(m, k@) {
        Some(i) => m.update(i, (k, v)),
        None => m.push((k, v)),
    }
}

pub open spec fn entries_get(m: Seq<(String, Value)>, k: Seq<char>) -> Option<Value> {
    match find_key(m, k) {
        Some(i) => Some(m[i].1),
        None => None,
    }
}

/// Whether two strings hold the same characters.
pub fn same_text(a: &str, b: &str) -> (r: bool)
    ensures
        r == (a@ == b@),
{
    let n = a.unicode_len();
    if n != b.unicode_len() {
        return false;
    }
    let mut i: usize = 0;
    while i < n
        invariant
            n == a@.len(),
            n == b@.len(),
            i <= n,
            forall|j: int| 0 <= j < i ==> a@[j] == b@[j],
        decreases n - i,
    {
        if a.get_char(i) != b.get_char(i) {
            return false;
        }
        i = i + 1;
    }
    assert(a@ =~= b@);
    true
}

impl ValueMap {
    pub open spec fn wf(&self) -> bool {
        keys_unique(self.entries@)
    }

    pub open spec fn spec_get(&self, k: Seq<char>) -> Option<Value> {
        entries_get(self.entries@, k)
    }

    pub fn new() -> (r: ValueMap)
        ensures
            r.entries@.len() == 0,
            r.wf(),
    {
        ValueMap { entries: Vec::new() }
    }

    pub fn len(&self) -> (r: usize)
        ensures
            r == self.entries@.len(),
    {
        self.entries.len()
    }

    pub fn is_empty(&self) -> (r: bool)
        ensures
            r == (self.entries@.len() == 0),
    {
        self.entries.len() == 0
    }

    /// Position of the entry for `key`.
    pub fn index_of(&self, key: &str) -> (r: Option<usize>)
        requires
            self.wf(),
        ensures
            match r {
                Some(i) => find_key(self.entries@, key@) == Some(i as int),
                None => find_key(self.entries@, key@) is None,
            },
    {
        let mut i: usize = 0;
        while i < self.entries.len()
            invariant
                i <= self.entries@.len(),
                self.wf(),
                forall|j: int| 0 <= j < i ==> self.entries@[j].0@ != key@,
            decreases self.entries@.len() - i,
        {
            if same_text(self.entries[i].0.as_str(), key) {
                proof {
                    let m = self.entries@;
                    assert(0 <= i < m.len() && m[i as int].0@ == key@);
                    let c = choose|c: int| 0 <= c < m.len() && m[c].0@ == key@;
                    if c < i {
                        assert(m[c].0@ != m[i as int].0@);
                    } else if c > i {
                        assert(m[i as int].0@ != m[c].0@);
                    }
                }
                return Some(i);
            }
            i = i + 1;
        }
        None
    }

    pub fn contains_key(&self, key: &str) -> (r: bool)
        requires
            self.wf(),
        ensures
            r == (self.spec_get(key@) is Some),
    {
        self.index_of(key).is_some()
    }

    pub fn get(&self, key: &str) -> (r: Option<&Value>)
        requires
            self.wf(),
        ensures
            match r {
                Some(v) => self.spec_get(key@) == Some(*v),
                None => self.spec_get(key@) is None,
            },
    {
        match self.index_of(key) {
            Some(i) => Some(&self.entries[i].1),
            None => None,
        }
    }

    pub fn insert(&mut self, key: String, value: Value)
        requires
            old(self).wf(),
        ensures
            final(self).wf(),
            final(self).entries@ == entries_insert(old(self).entries@, key, value),
    {
        match self.index_of(key.as_str()) {
            Some(i) => {
                self.entries.set(i, (key, value));
            },
            None => {
                self.entries.push((key, value));
            },
        }
    }

    /// The keys in entry order.
    pub fn keys(&self) -> (r: Vec<String>)
        ensures
            r@.len() == self.entries@.len(),
            forall|i: int| 0 <= i < r@.len() ==> r@[i]@ == self.entries@[i].0@,
    {
        let mut r: Vec<String> = Vec::new();
        let mut i: usize = 0;
        while i < self.entries.len()
            invariant
                i <= self.entries@.len(),
                r@.len() == i,
                forall|j: int| 0 <= j < i ==> r@[j]@ == self.entries@[j].0@,
            decreases self.entries@.len() - i,
        {
            r.push(self.entries[i].0.clone());
            i = i + 1;
        }
        r
    }
}

/// The stack of frames that names are resolved in.
pub struct Environment {
    pub env: Vec<ValueMap>,
}

/// The binding of `k` that the innermost frame holding `k` gives.
pub open spec fn lookup_spec(frames: Seq<ValueMap>, k: Seq<char>) -> Option<Value>
    decreases frames.len(),
{
    if frames.len() == 0 {
        None
    } else {
        match frames.last().spec_get(k) {
            Some(v) => Some(v),
            None => lookup_spec(frames.drop_last(), k),
        }
    }
}

/// Index of the innermost frame holding `k`, or -1.
pub open spec fn innermost_with(frames: Seq<ValueMap>, k: Seq<char>) -> int
    decreases frames.len(),
{
    if frames.len() == 0 {
        -1
    } else if frames.last().spec_get(k) is Some {
        frames.len() - 1
    } else {
        innermost_with(frames.drop_last(), k)
    }
}

pub proof fn lemma_innermost_range(frames: Seq<ValueMap>, k: Seq<char>)
    ensures
        -1 <= innermost_with(frames, k) < frames.len(),
        innermost_with(frames, k) == -1 <==> lookup_spec(frames, k) is None,
        innermost_with(frames, k) >= 0 ==> lookup_spec(frames, k) == frames[innermost_with(frames, k)].spec_get(k),
        forall|j: int| innermost_with(frames, k) < j < frames.len() ==> (#[trigger] frames[j]).spec_get(k) is None,
    decreases frames.len(),
{
    if frames.len() > 0 {
        lemma_innermost_range(frames.drop_last(), k);
        assert forall|j: int| 0 <= j < frames.len() - 1 implies frames.drop_last()[j] == frames[j] by {};
    }
}

impl ValueMap {
    /// Whether no key occurs twice.
    pub fn check_wf(&self) -> (r: bool)
        ensures
            r == self.wf(),
    {
        let n = self.entries.len();
        let mut i: usize = 0;
        while i < n
            invariant
                n == self.entries@.len(),
                i <= n,
                forall|a: int, b: int| 0 <= a < b < n && a < i ==> self.entries@[a].0@ != self.entries@[b].0@,
            decreases n - i,
        {
            let mut j: usize = i + 1;
            while j < n
                invariant
                    n == self.entries@.len(),
                    i < n,
                    i + 1 <= j <= n,
                    forall|a: int, b: int| 0 <= a < b < n && a < i ==> self.entries@[a].0@ != self.entries@[b].0@,
                    forall|b: int| i < b < j ==> self.entries@[i as int].0@ != self.entries@[b].0@,
                decreases n - j,
            {
                if same_text(self.entries[i].0.as_str(), self.entries[j].0.as_str()) {
                    return false;
                }
                j = j + 1;
            }
            i = i + 1;
        }
        true
    }
}


pub proof fn lemma_insert_get(m: Seq<(String, Value)>, k: String, v: Value)
    requires
        keys_unique(m),
        keys_unique(entries_insert(m, k, v)),
    ensures
        entries_get(entries_insert(m, k, v), k@) == Some(v),
{
    let m2 = entries_insert(m, k, v);
    let idx: int = match find_key(m, k@) {
        Some(i) => i,
        None => m.len() as int,
    };
    assert(m2[idx].0@ == k@ && m2[idx].1 == v);
    let c = choose|c: int| 0 <= c < m2.len() && m2[c].0@ == k@;
    if c < idx {
        assert(m2[c].0@ != m2[idx].0@);
    } else if c > idx {
        assert(m2[idx].0@ != m2[c].0@);
    }
}

/// Binding `k` leaves every other key's binding as it was.
pub proof fn lemma_insert_other(m: Seq<(String, Value)>, k: String, v: Value, k2: Seq<char>)
    requires
        keys_unique(m),
        keys_unique(entries_insert(m, k, v)),
        k2 != k@,
    ensures
        entries_get(entries_insert(m, k, v), k2) == entries_get(m, k2),
{
    let m2 = entries_insert(m, k, v);
    assert(forall|j: int| 0 <= j < m2.len() && j < m.len() && m2[j].0@ == k2 ==> m2[j] == m[j]);
    if exists|j: int| 0 <= j < m.len() && m[j].0@ == k2 {
        let j = choose|j: int| 0 <= j < m.len() && m[j].0@ == k2;
        assert(m2[j] == m[j]);
        let c = choose|c: int| 0 <= c < m2.len() && m2[c].0@ == k2;
        if c < j {
            assert(m2[c].0@ != m2[j].0@);
        } else if c > j {
            assert(m2[j].0@ != m2[c].0@);
        }
        let c1 = choose|c: int| 0 <= c < m.len() && m[c].0@ == k2;
        if c1 < j {
            assert(m[c1].0@ != m[j].0@);
        } else if c1 > j {
            assert(m[j].0@ != m[c1].0@);
        }
    } else {
        assert forall|j: int| 0 <= j < m2.len() implies m2[j].0@ != k2 by {
            if j < m.len() && m2[j] != m[j] {
                assert(m2[j].0@ == k@);
            } else if j >= m.len() {
                assert(m2[j].0@ == k@);
            }
        };
    }
}

/// A binding in frame `t` that no frame above hides is what lookup finds.
pub proof fn lemma_lookup_top(frames: Seq<ValueMap>, t: int, k: Seq<char>, v: Value)
    requires
        0 <= t < frames.len(),
        frames[t].spec_get(k) == Some(v),
        forall|j: int| t < j < frames.len() ==> (#[trigger] frames[j]).spec_get(k) is None,
    ensures
        lookup_spec(frames, k) == Some(v),
    decreases frames.len(),
{
    if t < frames.len() - 1 {
        let d = frames.drop_last();
        assert forall|j: int| t < j < d.len() implies (#[trigger] d[j]).spec_get(k) is None by {
            assert(d[j] == frames[j]);
        };
        lemma_lookup_top(d, t, k, v);
    }
}

/// After `set`, the name looks up to the value it was set to.
pub proof fn lemma_set_lookup(old_f: Seq<ValueMap>, new_f: Seq<ValueMap>, name: String, value: Value)
    requires
        old_f.len() > 0,
        new_f.len() == old_f.len(),
        forall|j: int| 0 <= j < old_f.len() ==> (#[trigger] old_f[j]).wf(),
        forall|j: int| 0 <= j < new_f.len() ==> (#[trigger] new_f[j]).wf(),
        ({
            let k = innermost_with(old_f, name@);
            let t = if k >= 0 { k } else { old_f.len() - 1 };
            &&& forall|j: int| 0 <= j < old_f.len() && j != t ==> new_f[j] == old_f[j]
            &&& new_f[t].entries@ == entries_insert(old_f[t].entries@, name, value)
        }),
    ensures
        lookup_spec(new_f, name@) == Some(value),
{
    lemma_innermost_range(old_f, name@);
    let k = innermost_with(old_f, name@);
    let t = if k >= 0 { k } else { old_f.len() - 1 };
    assert(new_f[t].wf() && old_f[t].wf());
    lemma_insert_get(old_f[t].entries@, name, value);
    assert forall|j: int| t < j < new_f.len() implies (#[trigger] new_f[j]).spec_get(name@) is None by {
        assert(new_f[j] == old_f[j]);
    };
    lemma_lookup_top(new_f, t, name@, value);
}

impl Environment {
    /// Whether every frame is well formed.
    pub fn check_wf(&self) -> (r: bool)
        ensures
            r == self.wf(),
    {
        let mut i: usize = 0;
        while i < self.env.len()
            invariant
                i <= self.env@.len(),
                forall|j: int| 0 <= j < i ==> (#[trigger] self.env@[j]).wf(),
            decreases self.env@.len() - i,
        {
            if !self.env[i].check_wf() {
                return false;
            }
            i = i + 1;
        }
        true
    }

    pub open spec fn wf(&self) -> bool {
        forall|i: int| 0 <= i < self.env@.len() ==> (#[trigger] self.env@[i]).wf()
    }

    pub open spec fn depth(&self) -> nat {
        self.env@.len()
    }

    pub open spec fn spec_lookup(&self, k: Seq<char>) -> Option<Value> {
        lookup_spec(self.env@, k)
    }

    /// An environment with one empty frame.
    pub fn new() -> (r: Environment)
        ensures
            r.wf(),
            r.depth() == 1,
            r.env@[0].entries@.len() == 0,
    {
        let mut env = Environment { env: Vec::new() };
        env.enter_scope();
        env
    }

    pub fn enter_scope(&mut self)
        requires
            old(self).wf(),
        ensures
            final(self).wf(),
            final(self).env@.len() == old(self).env@.len() + 1,
            final(self).env@.drop_last() == old(self).env@,
            final(self).env@.last().entries@.len() == 0,
    {
        self.env.push(ValueMap::new());
        assert(final(self).env@.drop_last() =~= old(self).env@);
    }

    /// Drops the innermost frame, if there is one.
    pub fn exit_scope(&mut self)
        requires
            old(self).wf(),
        ensures
            final(self).wf(),
            old(self).env@.len() > 0 ==> final(self).env@ == old(self).env@.drop_last(),
            old(self).env@.len() == 0 ==> final(self).env@ == old(self).env@,
    {
        self.env.pop();
    }

    pub fn lookup(&self, name: &str) -> (r: Option<&Value>)
        requires
            self.wf(),
        ensures
            match r {
                Some(v) => self.spec_lookup(name@) == Some(*v),
                None => self.spec_lookup(name@) is None,
            },
    {
        let mut i: usize = self.env.len();
        assert(self.env@.subrange(0, i as int) =~= self.env@);
        while i > 0
            invariant
                i <= self.env@.len(),
                self.wf(),
                lookup_spec(self.env@, name@) == lookup_spec(self.env@.subrange(0, i as int), name@),
            decreases i,
        {
            let ghost pre = self.env@.subrange(0, i as int);
            assert(pre.drop_last() =~= self.env@.subrange(0, i - 1));
            assert(pre.last() == self.env@[i - 1]);
            match self.env[i - 1].get(name) {
                Some(v) => {
                    return Some(v);
                },
                None => {},
            }
            i = i - 1;
        }
        None
    }

    /// Binds `name` in the innermost frame; does nothing when there is no frame.
    pub fn insert(&mut self, name: String, value: Value)
        requires
            old(self).wf(),
        ensures
            final(self).wf(),
            final(self).env@.len() == old(self).env@.len(),
            old(self).env@.len() == 0 ==> final(self).env@ == old(self).env@,
            old(self).env@.len() > 0 ==> {
                &&& final(self).env@.drop_last() == old(self).env@.drop_last()
                &&& final(self).env@.last().entries@ == entries_insert(old(self).env@.last().entries@, name, value)
            },
    {
        match self.env.pop() {
            Some(mut frame) => {
                frame.insert(name, value);
                self.env.push(frame);
                assert(final(self).env@.drop_last() =~= old(self).env@.drop_last());
            },
            None => {},
        }
    }

    /// Rebinds `name` in the innermost frame that holds it; binds it in the
    /// innermost frame when no frame does.
    pub fn set(&mut self, name: String, value: Value)
        requires
            old(self).wf(),
        ensures
            final(self).wf(),
            final(self).env@.len() == old(self).env@.len(),
            ({
                let k = innermost_with(old(self).env@, name@);
                let t = if k >= 0 { k } else { old(self).env@.len() - 1 };
                &&& forall|j: int| 0 <= j < old(self).env@.len() && j != t ==> final(self).env@[j] == old(self).env@[j]
                &&& 0 <= t ==> final(self).env@[t].entries@ == entries_insert(old(self).env@[t].entries@, name, value)
            }),
            old(self).env@.len() > 0 ==> lookup_spec(final(self).env@, name@) == Some(value),
    {
        proof { lemma_innermost_range(self.env@, name@); }
        let ghost frames = self.env@;
        let ghost ng = name;
        let ghost vg = value;
        let mut i: usize = self.env.len();
        assert(frames.subrange(0, i as int) =~= frames);
        while i > 0
            invariant
                i <= frames.len(),
                frames == old(self).env@,
                self.env@ == frames,
                self.wf(),
                ng == name,
                vg == value,
                innermost_with(frames, name@) == innermost_with(frames.subrange(0, i as int), name@),
            decreases i,
        {
            let ghost pre = frames.subrange(0, i as int);
            assert(pre.drop_last() =~= frames.subrange(0, i - 1));
            assert(pre.last() == frames[i - 1]);
            if self.env[i - 1].contains_key(name.as_str()) {
                assert(innermost_with(frames, name@) == i - 1);
                let mut frame = self.env.remove(i - 1);
                frame.insert(name, value);
                let ghost nf = frame;
                self.env.insert(i - 1, frame);
                assert(self.env@ =~= frames.update(i - 1, nf));
                assert forall|j: int| 0 <= j < self.env@.len() implies (#[trigger] self.env@[j]).wf() by {
                    if j != i - 1 {
                        assert(self.env@[j] == frames[j]);
                    }
                };
                proof {
                    assert(nf.entries@ == entries_insert(frames[i - 1].entries@, ng, vg));
                    assert(self.env@[i - 1] == nf);
                    assert(forall|j: int| 0 <= j < frames.len() && j != i - 1 ==> self.env@[j] == frames[j]);
                    assert(forall|j: int| 0 <= j < frames.len() ==> (#[trigger] frames[j]).wf());
                    lemma_set_lookup(frames, self.env@, ng, vg);
                }
                return;
            }
            i = i - 1;
        }
        assert(frames.subrange(0, 0) =~= Seq::<ValueMap>::empty());
        assert(innermost_with(frames, name@) == -1);
        self.insert(name, value);
        assert forall|j: int| 0 <= j < frames.len() && j != frames.len() - 1 implies self.env@[j] == frames[j] by {
            assert(self.env@.drop_last()[j] == frames.drop_last()[j]);
        };
        proof {
            if frames.len() > 0 {
                assert(self.env@[frames.len() - 1].entries@ == entries_insert(frames[frames.len() - 1].entries@, ng, vg));
                assert(forall|j: int| 0 <= j < frames.len() ==> (#[trigger] frames[j]).wf());
                lemma_set_lookup(frames, self.env@, ng, vg);
            }
        }
    }
}

} // verus!
