use crate::text::same_text;
use vstd::prelude::*;

verus! {

/// The string store that commands share across one run of a shell.
#[derive(Clone, Debug)]
pub struct Context {
    entries: Vec<(String, String)>,
}

impl View for Context {
    type V = Map<Seq<char>, Seq<char>>;

    closed spec fn view(&self) -> Map<Seq<char>, Seq<char>> {
        Map::new(
            |k: Seq<char>| exists|i: int| 0 <= i < self.entries@.len() && self.entries@[i].0@ == k,
            |k: Seq<char>|
                self.entries@[choose|i: int| 0 <= i < self.entries@.len() && self.entries@[i].0@ == k].1@,
        )
    }
}

impl Context {
    /// No key is stored twice. Every `Context` built and changed through its methods has this.
    pub closed spec fn wf(&self) -> bool {
        forall|i: int, j: int|
            0 <= i < self.entries@.len() && 0 <= j < self.entries@.len() && #[trigger] self.entries@[i].0@
                == #[trigger] self.entries@[j].0@ ==> i == j
    }

    pub fn new() -> (r: Context)
        ensures
            r@ == Map::<Seq<char>, Seq<char>>::empty(),
            r.wf(),
    {
        let r = Context { entries: Vec::new() };
        assert(r@ =~= Map::<Seq<char>, Seq<char>>::empty());
        r
    }

    /// Where `key` is stored, if it is.
    fn position(&self, key: &str) -> (r: Option<usize>)
        ensures
            match r {
                Some(i) => i < self.entries@.len() && self.entries@[i as int].0@ == key@,
                None => forall|i: int| 0 <= i < self.entries@.len() ==> self.entries@[i].0@ != key@,
            },
    {
        let mut i: usize = 0;
        while i < self.entries.len()
            invariant
                0 <= i <= self.entries@.len(),
                forall|j: int| 0 <= j < i ==> self.entries@[j].0@ != key@,
            decreases self.entries@.len() - i,
        {
            if same_text(self.entries[i].0.as_str(), key) {
                return Some(i);
            }
            i = i + 1;
        }
        None
    }

    /// The value stored under `key`.
    pub fn get(&self, key: &str) -> (r: Option<&String>)
        requires
            self.wf(),
        ensures
            match r {
                Some(v) => self@.contains_key(key@) && self@[key@] == v@,
                None => !self@.contains_key(key@),
            },
    {
        match self.position(key) {
            Some(i) => {
                let ghost k = i as int;
                assert(self@.contains_key(key@));
                let ghost c = choose|c: int| 0 <= c < self.entries@.len() && self.entries@[c].0@ == key@;
                assert(self.entries@[c].0@ == self.entries@[k].0@);
                Some(&self.entries[i].1)
            },
            None => None,
        }
    }

    /// Stores `value` under `key`, handing back the value it replaces.
    pub fn insert(&mut self, key: &str, value: &str) -> (r: Option<String>)
        requires
            old(self).wf(),
        ensures
            final(self).wf(),
            final(self)@ == old(self)@.insert(key@, value@),
            match r {
                Some(v) => old(self)@.contains_key(key@) && old(self)@[key@] == v@,
                None => !old(self)@.contains_key(key@),
            },
    {
        let ghost before = self.entries@;
        let ghost m0 = self@;
        match self.position(key) {
            Some(i) => {
                let ghost k = i as int;
                proof {
                    let c = choose|c: int| 0 <= c < before.len() && before[c].0@ == key@;
                    assert(before[c].0@ == before[k].0@);
                }
                let mut pair = (key.to_owned(), value.to_owned());
                self.entries.set_and_swap(i, &mut pair);
                proof {
                    assert(self.entries@ == before.update(k, self.entries@[k]));
                    assert forall|a: int, b: int|
                        0 <= a < self.entries@.len() && 0 <= b < self.entries@.len()
                            && #[trigger] self.entries@[a].0@ == #[trigger] self.entries@[b].0@ implies a
                        == b by {
                        if a != k && b == k {
                            assert(before[a].0@ == before[k].0@);
                        }
                        if a == k && b != k {
                            assert(before[b].0@ == before[k].0@);
                        }
                    }
                    assert forall|x: Seq<char>| #[trigger] self@.contains_key(x) == m0.insert(key@, value@).contains_key(x) by {
                        if x != key@ && self@.contains_key(x) {
                            let w = choose|w: int| 0 <= w < self.entries@.len() && self.entries@[w].0@ == x;
                            assert(before[w].0@ == x);
                        }
                        if x != key@ && m0.contains_key(x) {
                            let w = choose|w: int| 0 <= w < before.len() && before[w].0@ == x;
                            assert(self.entries@[w].0@ == x);
                        }
                        if x == key@ {
                            assert(self.entries@[k].0@ == x);
                        }
                    }
                    assert forall|x: Seq<char>| #[trigger] self@.contains_key(x) implies self@[x] == m0.insert(key@, value@)[x] by {
                        let w = choose|w: int| 0 <= w < self.entries@.len() && self.entries@[w].0@ == x;
                        if x == key@ {
                            assert(self.entries@[k].0@ == x);
                        } else {
                            let v = choose|v: int| 0 <= v < before.len() && before[v].0@ == x;
                            assert(self.entries@[v].0@ == x);
                            assert(before[w].0@ == x);
                        }
                    }
                    assert(self@ =~= m0.insert(key@, value@));
                }
                Some(pair.1)
            },
            None => {
                self.entries.push((key.to_owned(), value.to_owned()));
                proof {
                    let n = before.len() as int;
                    assert forall|x: Seq<char>| #[trigger] self@.contains_key(x) == m0.insert(key@, value@).contains_key(x) by {
                        if x != key@ && self@.contains_key(x) {
                            let w = choose|w: int| 0 <= w < self.entries@.len() && self.entries@[w].0@ == x;
                            assert(before[w].0@ == x);
                        }
                        if x != key@ && m0.contains_key(x) {
                            let w = choose|w: int| 0 <= w < before.len() && before[w].0@ == x;
                            assert(self.entries@[w].0@ == x);
                        }
                        if x == key@ {
                            assert(self.entries@[n].0@ == x);
                        }
                    }
                    assert forall|x: Seq<char>| #[trigger] self@.contains_key(x) implies self@[x] == m0.insert(key@, value@)[x] by {
                        let w = choose|w: int| 0 <= w < self.entries@.len() && self.entries@[w].0@ == x;
                        if x == key@ {
                            assert(self.entries@[n].0@ == x);
                        } else {
                            let v = choose|v: int| 0 <= v < before.len() && before[v].0@ == x;
                            assert(self.entries@[v].0@ == x);
                        }
                    }
                    assert(self@ =~= m0.insert(key@, value@));
                }
                None
            },
        }
    }
}

} // verus!
