//! The messages that updates leave behind, one per key.
use vstd::prelude::*;

verus! {

broadcast use vstd::string::group_string_axioms;

/// The keys of a list of entries.
pub open spec fn entry_keys(s: Seq<(String, String)>) -> Seq<Seq<char>> {
    s.map_values(|e: (String, String)| e.0@)
}

/// The first index of an entry with key `k` from `i` on, or -1.
pub open spec fn key_index(s: Seq<(String, String)>, k: Seq<char>, i: int) -> int
    decreases s.len() - i,
{
    if i < 0 || i >= s.len() {
        -1
    } else if s[i].0@ == k {
        i
    } else {
        key_index(s, k, i + 1)
    }
}

/// A map from message keys to messages, kept in the order keys were first
/// written; writing a key again replaces its message.
pub struct MessageLog {
    entries: Vec<(String, String)>,
}

impl View for MessageLog {
    type V = Map<Seq<char>, Seq<char>>;

    closed spec fn view(&self) -> Map<Seq<char>, Seq<char>> {
        Map::new(
            |k: Seq<char>| key_index(self.entries@, k, 0) >= 0,
            |k: Seq<char>| self.entries@[key_index(self.entries@, k, 0)].1@,
        )
    }
}

proof fn lemma_key_index(s: Seq<(String, String)>, k: Seq<char>, i: int)
    requires
        0 <= i <= s.len(),
    ensures
        -1 <= key_index(s, k, i) < s.len(),
        key_index(s, k, i) >= 0 ==> i <= key_index(s, k, i) && s[key_index(s, k, i)].0@ == k,
        key_index(s, k, i) >= 0 ==> forall|j: int| i <= j < key_index(s, k, i) ==> s[j].0@ != k,
        key_index(s, k, i) < 0 ==> forall|j: int| i <= j < s.len() ==> s[j].0@ != k,
    decreases s.len() - i,
{
    if i < s.len() && s[i].0@ != k {
        lemma_key_index(s, k, i + 1);
    }
}

/// Whether two sequences of entries have the same keys in the same places.
pub open spec fn same_keys(a: Seq<(String, String)>, b: Seq<(String, String)>) -> bool {
    a.len() == b.len() && forall|j: int| 0 <= j < a.len() ==> a[j].0@ == b[j].0@
}

proof fn lemma_key_index_same_keys(
    a: Seq<(String, String)>,
    b: Seq<(String, String)>,
    k: Seq<char>,
    i: int,
)
    requires
        same_keys(a, b),
        0 <= i <= a.len(),
    ensures
        key_index(a, k, i) == key_index(b, k, i),
    decreases a.len() - i,
{
    if i < a.len() {
        lemma_key_index_same_keys(a, b, k, i + 1);
    }
}

proof fn lemma_key_index_push(s: Seq<(String, String)>, e: (String, String), k: Seq<char>, i: int)
    requires
        0 <= i <= s.len(),
    ensures
        key_index(s.push(e), k, i) == if key_index(s, k, i) >= 0 {
            key_index(s, k, i)
        } else if e.0@ == k {
            s.len() as int
        } else {
            -1
        },
    decreases s.len() - i,
{
    if i < s.len() {
        assert(s.push(e)[i] == s[i]);
        lemma_key_index_push(s, e, k, i + 1);
    } else {
        assert(s.push(e)[i] == e);
        assert(key_index(s.push(e), k, i + 1) == -1);
        assert(key_index(s, k, i) == -1);
    }
}

impl MessageLog {
    /// The keys of the log have no repetitions.
    #[verifier::type_invariant]
    spec fn keys_distinct(self) -> bool {
        entry_keys(self.entries@).no_duplicates()
    }

    /// The entries, in the order their keys were first written.
    pub closed spec fn entry_list(self) -> Seq<(Seq<char>, Seq<char>)> {
        self.entries@.map_values(|e: (String, String)| (e.0@, e.1@))
    }

    /// An empty log.
    pub fn new() -> (res: Self)
        ensures
            res@ == Map::<Seq<char>, Seq<char>>::empty(),
            res.entry_list().len() == 0,
    {
        let res = MessageLog { entries: Vec::new() };
        assert(res@ == Map::<Seq<char>, Seq<char>>::empty());
        res
    }

    /// Whether the log holds no message.
    pub fn is_empty(&self) -> (res: bool)
        ensures
            res == (self@.dom() == Set::<Seq<char>>::empty()),
            res == (self.entry_list().len() == 0),
    {
        proof {
            if self.entries@.len() > 0 {
                lemma_key_index(self.entries@, self.entries@[0].0@, 0);
                assert(self@.dom().contains(self.entries@[0].0@));
                assert(self@.dom() != Set::<Seq<char>>::empty());
            } else {
                assert(self@.dom() =~= Set::<Seq<char>>::empty());
            }
        }
        self.entries.len() == 0
    }

    /// The message under `key`, if any.
    pub fn get(&self, key: &String) -> (res: Option<String>)
        ensures
            match res {
                Some(v) => self@.contains_key(key@) && self@[key@] == v@,
                None => !self@.contains_key(key@),
            },
    {
        let mut i: usize = 0;
        while i < self.entries.len()
            invariant
                i <= self.entries.len(),
                key_index(self.entries@, key@, 0) == key_index(self.entries@, key@, i as int),
            decreases self.entries.len() - i,
        {
            if self.entries[i].0 == *key {
                return Some(self.entries[i].1.clone());
            }
            i = i + 1;
        }
        None
    }

    /// Writes `message` under `key`, replacing a message already there; a new
    /// key goes after the others.
    pub fn insert(&mut self, key: String, message: String)
        ensures
            final(self)@ == old(self)@.insert(key@, message@),
            old(self)@.contains_key(key@) ==> final(self).entry_list().len() == old(
                self,
            ).entry_list().len(),
            !old(self)@.contains_key(key@) ==> final(self).entry_list() == old(
                self,
            ).entry_list().push((key@, message@)),
    {
        proof {
            use_type_invariant(&*self);
        }
        let ghost old_entries = self.entries@;
        assert(entry_keys(old_entries).no_duplicates());
        let mut i: usize = 0;
        while i < self.entries.len()
            invariant
                self.entries@ == old_entries,
                old(self).entries@ == old_entries,
                entry_keys(old_entries).no_duplicates(),
                i <= self.entries.len(),
                key_index(old_entries, key@, 0) == key_index(old_entries, key@, i as int),
            decreases self.entries.len() - i,
        {
            if self.entries[i].0 == key {
                proof {
                    lemma_key_index(old_entries, key@, 0);
                    assert(key_index(old_entries, key@, i as int) == i);
                    assert(old(self)@.contains_key(key@));
                }
                let mut entries: Vec<(String, String)> = Vec::new();
                std::mem::swap(&mut entries, &mut self.entries);
                entries.set(i, (key, message));
                let ghost new_entries = entries@;
                assert(same_keys(old_entries, new_entries));
                assert(entry_keys(new_entries) =~= entry_keys(old_entries));
                assert(entry_keys(new_entries).no_duplicates());
                self.entries = entries;
                proof {
                    assert forall|k: Seq<char>| #[trigger]
                        key_index(new_entries, k, 0) == key_index(old_entries, k, 0) by {
                        lemma_key_index_same_keys(old_entries, new_entries, k, 0);
                    }
                    assert forall|k: Seq<char>| key_index(old_entries, k, 0) >= 0 && k != key@
                        implies #[trigger] new_entries[key_index(old_entries, k, 0)]
                        == old_entries[key_index(old_entries, k, 0)] by {
                        lemma_key_index(old_entries, k, 0);
                    }
                    assert(self@ =~= old(self)@.insert(key@, message@));
                    assert(self.entry_list().len() == old(self).entry_list().len());
                }
                return;
            }
            i = i + 1;
        }
        proof {
            lemma_key_index(old_entries, key@, 0);
            assert(!entry_keys(old_entries).contains(key@)) by {
                if entry_keys(old_entries).contains(key@) {
                    let j = choose|j: int|
                        0 <= j < entry_keys(old_entries).len() && entry_keys(old_entries)[j]
                            == key@;
                    assert(old_entries[j].0@ == key@);
                }
            }
        }
        let ghost e = (key, message);
        let mut entries: Vec<(String, String)> = Vec::new();
        std::mem::swap(&mut entries, &mut self.entries);
        entries.push((key, message));
        let ghost new_entries = entries@;
        assert(entry_keys(new_entries) == entry_keys(old_entries).push(key@));
        self.entries = entries;
        proof {
            assert forall|k: Seq<char>| #[trigger]
                key_index(new_entries, k, 0) == if key_index(old_entries, k, 0) >= 0 {
                    key_index(old_entries, k, 0)
                } else if key@ == k {
                    old_entries.len() as int
                } else {
                    -1
                } by {
                lemma_key_index_push(old_entries, e, k, 0);
            }
            assert forall|k: Seq<char>| key_index(old_entries, k, 0) >= 0
                implies #[trigger] new_entries[key_index(old_entries, k, 0)]
                == old_entries[key_index(old_entries, k, 0)] by {
                lemma_key_index(old_entries, k, 0);
            }
            assert(self@ =~= old(self)@.insert(key@, message@));
            assert(self.entry_list() =~= old(self).entry_list().push((key@, message@)));
        }
    }

    /// The entries, in the order their keys were first written; no key occurs
    /// twice, and each entry's message is the log's message under its key.
    pub fn entries(&self) -> (res: Vec<(String, String)>)
        ensures
            res@.map_values(|e: (String, String)| (e.0@, e.1@)) == self.entry_list(),
            entry_keys(res@).no_duplicates(),
            forall|j: int| 0 <= j < res@.len() ==> self@.contains_key(#[trigger] res@[j].0@)
                && self@[res@[j].0@] == res@[j].1@,
            forall|k: Seq<char>| self@.contains_key(k) ==> entry_keys(res@).contains(k),
    {
        proof {
            use_type_invariant(self);
        }
        let mut out: Vec<(String, String)> = Vec::new();
        let mut i: usize = 0;
        while i < self.entries.len()
            invariant
                i <= self.entries.len(),
                out@.len() == i,
                forall|j: int| 0 <= j < i ==> (#[trigger] out@[j]).0@ == self.entries@[j].0@
                    && out@[j].1@ == self.entries@[j].1@,
            decreases self.entries.len() - i,
        {
            let e = (self.entries[i].0.clone(), self.entries[i].1.clone());
            out.push(e);
            i = i + 1;
        }
        proof {
            let s = self.entries@;
            assert(entry_keys(out@) == entry_keys(s));
            assert(out@.map_values(|e: (String, String)| (e.0@, e.1@)) == self.entry_list());
            assert forall|j: int| 0 <= j < out@.len() implies self@.contains_key(
                #[trigger] out@[j].0@,
            ) && self@[out@[j].0@] == out@[j].1@ by {
                lemma_key_index(s, s[j].0@, 0);
                let f = key_index(s, s[j].0@, 0);
                if f != j {
                    assert(entry_keys(s)[f] == entry_keys(s)[j]);
                }
            }
            assert forall|k: Seq<char>| self@.contains_key(k) implies entry_keys(out@).contains(
                k,
            ) by {
                lemma_key_index(s, k, 0);
                let f = key_index(s, k, 0);
                assert(entry_keys(out@)[f] == k);
            }
        }
        out
    }
}


/// Reading a key after writing it gives the message written; writing one key
/// leaves every other key as it was; writing a key twice keeps only the
/// later message.
pub proof fn law_message_read_after_write(
    log: Map<Seq<char>, Seq<char>>,
    key: Seq<char>,
    message: Seq<char>,
    later: Seq<char>,
    other: Seq<char>,
)
    ensures
        log.insert(key, message).contains_key(key),
        log.insert(key, message)[key] == message,
        other != key ==> (log.insert(key, message).contains_key(other) == log.contains_key(other)),
        other != key && log.contains_key(other) ==> log.insert(key, message)[other] == log[other],
        log.insert(key, message).insert(key, later) == log.insert(key, later),
{
    assert(log.insert(key, message).insert(key, later) =~= log.insert(key, later));
}

} // verus!
