use vstd::prelude::*;

use crate::text::{int_text, push_int};

verus! {

/// The ways a counter update can fail.
#[derive(Debug, Clone, Copy, PartialEq, Eq, Structural)]
pub enum MetricsError {
    /// The counter would leave the range of `i64`.
    Overflow,
}

/// The count of `key` in `m`, a key that was never counted being at zero.
pub open spec fn count_or_zero(m: Map<Seq<char>, i64>, key: Seq<char>) -> int {
    if m.contains_key(key) {
        m[key] as int
    } else {
        0
    }
}

/// The first `n` counters, each as its name between double quotes, `: `
/// and its value, separated by `, `.
pub open spec fn entries_text(names: Seq<Seq<char>>, values: Seq<i64>, n: nat) -> Seq<char>
    decreases n,
{
    if n == 0 {
        Seq::empty()
    } else if n == 1 {
        entry_text(names[0], values[0])
    } else {
        entries_text(names, values, (n - 1) as nat) + ", "@ + entry_text(names[n - 1], values[n - 1])
    }
}

/// One counter: its name between double quotes, `: ` and its value.
pub open spec fn entry_text(name: Seq<char>, value: i64) -> Seq<char> {
    seq!['"'] + name + "\": "@ + int_text(value as int)
}

/// Named signed counters, each name at most once.
pub struct Counters {
    keys: Vec<String>,
    values: Vec<i64>,
    model: Ghost<Map<Seq<char>, i64>>,
}

impl View for Counters {
    type V = Map<Seq<char>, i64>;

    closed spec fn view(&self) -> Map<Seq<char>, i64> {
        self.model@
    }
}

impl Counters {
    /// The names are distinct, each stands beside its value, and the model
    /// holds exactly the stored names.
    pub closed spec fn wf(&self) -> bool {
        &&& self.keys@.len() == self.values@.len()
        &&& forall|i: int, j: int|
            0 <= i < j < self.keys@.len() ==> (#[trigger] self.keys@[i])@ != (#[trigger] self.keys@[j])@
        &&& forall|i: int|
            0 <= i < self.keys@.len() ==> self.model@.contains_key((#[trigger] self.keys@[i])@)
                && self.model@[self.keys@[i]@] == self.values@[i]
        &&& forall|s: Seq<char>|
            #[trigger] self.model@.contains_key(s) ==> exists|i: int|
                0 <= i < self.keys@.len() && (#[trigger] self.keys@[i])@ == s
        &&& self.model@.dom().finite()
        &&& self.model@.dom().len() == self.keys@.len()
    }

    /// No counters at all.
    pub fn new() -> (r: Counters)
        ensures
            r.wf(),
            r@ == Map::<Seq<char>, i64>::empty(),
    {
        Counters { keys: Vec::new(), values: Vec::new(), model: Ghost(Map::empty()) }
    }

    /// The position of `key` among the names, if it is there.
    fn find(&self, key: &String) -> (r: Option<usize>)
        requires
            self.wf(),
        ensures
            r is None <==> !self@.contains_key(key@),
            r matches Some(i) ==> i < self.keys@.len() && self.keys@[i as int]@ == key@,
    {
        let mut i: usize = 0;
        while i < self.keys.len()
            invariant
                self.wf(),
                i <= self.keys@.len(),
                forall|t: int| 0 <= t < i ==> (#[trigger] self.keys@[t])@ != key@,
            decreases self.keys@.len() - i,
        {
            if self.keys[i] == *key {
                return Some(i);
            }
            i = i + 1;
        }
        None
    }

    /// Adds `delta` to the counter of `key`, which starts at zero. When the
    /// sum leaves the range of `i64` nothing changes and `Overflow` comes back.
    pub fn add(&mut self, key: &str, delta: i64) -> (r: Result<(), MetricsError>)
        requires
            old(self).wf(),
        ensures
            final(self).wf(),
            r is Ok <==> i64::MIN <= count_or_zero(old(self)@, key@) + delta <= i64::MAX,
            r is Ok ==> final(self)@ == old(self)@.insert(
                key@,
                (count_or_zero(old(self)@, key@) + delta) as i64,
            ),
            r is Err ==> r == Err::<(), MetricsError>(MetricsError::Overflow) && final(self)@
                == old(self)@,
    {
        let k = key.to_owned();
        match self.find(&k) {
            Some(i) => {
                let cur = self.values[i];
                match cur.checked_add(delta) {
                    Some(v) => {
                        self.values.set(i, v);
                        self.model = Ghost(self.model@.insert(k@, v));
                        proof {
                            assert forall|s: Seq<char>| #[trigger]
                                self.model@.contains_key(s) implies exists|t: int|
                                0 <= t < self.keys@.len() && (#[trigger] self.keys@[t])@ == s by {
                                if s != k@ {
                                    assert(old(self)@.contains_key(s));
                                    let t = choose|t: int|
                                        0 <= t < old(self).keys@.len() && (#[trigger] old(
                                            self,
                                        ).keys@[t])@ == s;
                                    assert(self.keys@[t] == old(self).keys@[t]);
                                } else {
                                    assert(self.keys@[i as int]@ == s);
                                }
                            }
                            assert(self.model@.dom() =~= old(self)@.dom());
                        }
                        Ok(())
                    },
                    None => Err(MetricsError::Overflow),
                }
            },
            None => {
                let ghost old_keys = self.keys@;
                self.keys.push(k);
                self.values.push(delta);
                self.model = Ghost(self.model@.insert(key@, delta));
                proof {
                    assert(self.keys@[old_keys.len() as int]@ == key@);
                    assert forall|s: Seq<char>| #[trigger]
                        self.model@.contains_key(s) implies exists|t: int|
                        0 <= t < self.keys@.len() && (#[trigger] self.keys@[t])@ == s by {
                        if s != key@ {
                            assert(old(self)@.contains_key(s));
                            let t = choose|t: int|
                                0 <= t < old_keys.len() && (#[trigger] old_keys[t])@ == s;
                            assert(self.keys@[t] == old_keys[t]);
                        }
                    }
                    assert forall|i: int| 0 <= i < self.keys@.len() implies self.model@.contains_key(
                        (#[trigger] self.keys@[i])@,
                    ) && self.model@[self.keys@[i]@] == self.values@[i] by {
                        if i < old_keys.len() {
                            assert(self.keys@[i] == old_keys[i]);
                            assert(old_keys[i]@ != key@);
                        }
                    }
                }
                Ok(())
            },
        }
    }

    /// The value of the counter of `key`, if there is one.
    pub fn get(&self, key: &str) -> (r: Option<&i64>)
        requires
            self.wf(),
        ensures
            r is Some <==> self@.contains_key(key@),
            r matches Some(v) ==> *v == self@[key@],
    {
        let k = key.to_owned();
        match self.find(&k) {
            Some(i) => Some(&self.values[i]),
            None => None,
        }
    }

    /// The number of counters.
    pub fn len(&self) -> (r: usize)
        requires
            self.wf(),
        ensures
            r == self@.len(),
    {
        self.keys.len()
    }

    /// The names, in the order in which they were first counted.
    pub closed spec fn names(&self) -> Seq<Seq<char>> {
        self.keys@.map_values(|k: String| k@)
    }

    /// The values, beside the names.
    pub closed spec fn values(&self) -> Seq<i64> {
        self.values@
    }

    /// The counters within braces, in the order in which they were first
    /// counted: `{"key1": 2, "key2": 1}`.
    pub open spec fn text(&self) -> Seq<char> {
        seq!['{'] + entries_text(self.names(), self.values(), self.names().len()) + seq!['}']
    }

    /// The counters within braces, in the order in which they were first
    /// counted: `{"key1": 2, "key2": 1}`.
    pub fn to_string(&self) -> (r: String)
        requires
            self.wf(),
        ensures
            r@ == self.text(),
    {
        let mut s = String::new();
        proof {
            reveal_strlit("{");
        }
        s.append("{");
        let mut i: usize = 0;
        while i < self.keys.len()
            invariant
                self.wf(),
                i <= self.keys@.len(),
                s@ == seq!['{'] + entries_text(self.names(), self.values(), i as nat),
            decreases self.keys@.len() - i,
        {
            proof {
                reveal_strlit(", ");
                reveal_strlit("\"");
                reveal_strlit("\": ");
            }
            if i > 0 {
                s.append(", ");
            }
            s.append("\"");
            s.append(self.keys[i].as_str());
            s.append("\": ");
            push_int(&mut s, self.values[i]);
            proof {
                assert(self.names()[i as int] == self.keys@[i as int]@);
                assert(s@ =~= seq!['{'] + entries_text(self.names(), self.values(), (i + 1) as nat));
            }
            i = i + 1;
        }
        proof {
            reveal_strlit("}");
        }
        s.append("}");
        s
    }

    /// A copy with the same counts.
    pub fn duplicate(&self) -> (r: Counters)
        requires
            self.wf(),
        ensures
            r.wf(),
            r@ == self@,
    {
        let mut keys: Vec<String> = Vec::new();
        let mut values: Vec<i64> = Vec::new();
        let mut i: usize = 0;
        while i < self.keys.len()
            invariant
                self.wf(),
                i <= self.keys@.len(),
                keys@.len() == i,
                values@.len() == i,
                forall|t: int| 0 <= t < i ==> #[trigger] keys@[t]@ == self.keys@[t]@,
                forall|t: int| 0 <= t < i ==> #[trigger] values@[t] == self.values@[t],
            decreases self.keys@.len() - i,
        {
            keys.push(self.keys[i].clone());
            values.push(self.values[i]);
            i = i + 1;
        }
        let r = Counters { keys, values, model: Ghost(self.model@) };
        proof {
            assert forall|s: Seq<char>| #[trigger] r.model@.contains_key(s) implies exists|t: int|
                0 <= t < r.keys@.len() && (#[trigger] r.keys@[t])@ == s by {
                let t = choose|t: int| 0 <= t < self.keys@.len() && (#[trigger] self.keys@[t])@ == s;
                assert(r.keys@[t]@ == s);
            }
            assert forall|i: int, j: int| 0 <= i < j < r.keys@.len() implies (#[trigger] r.keys@[i])@
                != (#[trigger] r.keys@[j])@ by {
                assert(self.keys@[i]@ != self.keys@[j]@);
            }
            assert forall|i: int| 0 <= i < r.keys@.len() implies r.model@.contains_key(
                (#[trigger] r.keys@[i])@,
            ) && r.model@[r.keys@[i]@] == r.values@[i] by {
                assert(self.keys@[i]@ == r.keys@[i]@);
            }
        }
        r
    }
}

} // verus!
