use crate::text::same_text;
use vstd::prelude::*;

verus! {

/// Header name and value, as characters.
pub open spec fn entry_view(e: (String, String)) -> (Seq<char>, Seq<char>) {
    (e.0@, e.1@)
}

/// The headers after setting `k` to `v`: an entry named `k` has its value replaced in
/// place; otherwise the entry is appended.
pub open spec fn insert_entry(s: Seq<(Seq<char>, Seq<char>)>, k: Seq<char>, v: Seq<char>) -> Seq<
    (Seq<char>, Seq<char>),
>
    decreases s.len(),
{
    if s.len() == 0 {
        seq![(k, v)]
    } else if s[0].0 == k {
        seq![(k, v)] + s.drop_first()
    } else {
        seq![s[0]] + insert_entry(s.drop_first(), k, v)
    }
}

/// The value of the first entry named `k`.
pub open spec fn lookup(s: Seq<(Seq<char>, Seq<char>)>, k: Seq<char>) -> Option<Seq<char>>
    decreases s.len(),
{
    if s.len() == 0 {
        None
    } else if s[0].0 == k {
        Some(s[0].1)
    } else {
        lookup(s.drop_first(), k)
    }
}

/// No two entries share a name.
pub open spec fn names_unique(s: Seq<(Seq<char>, Seq<char>)>) -> bool {
    forall|i: int, j: int| 0 <= i < j < s.len() ==> #[trigger] s[i].0 != #[trigger] s[j].0
}

proof fn lemma_insert_at(s: Seq<(Seq<char>, Seq<char>)>, k: Seq<char>, v: Seq<char>, i: int)
    requires
        0 <= i <= s.len(),
        forall|j: int| 0 <= j < i ==> s[j].0 != k,
        i < s.len() ==> s[i].0 == k,
    ensures
        insert_entry(s, k, v) == (if i < s.len() {
            s.update(i, (k, v))
        } else {
            s.push((k, v))
        }),
    decreases i,
{
    if i == 0 {
        if s.len() == 0 {
            assert(seq![(k, v)] =~= s.push((k, v)));
        } else {
            assert(seq![(k, v)] + s.drop_first() =~= s.update(0, (k, v)));
        }
    } else {
        let t = s.drop_first();
        lemma_insert_at(t, k, v, i - 1);
        if i < s.len() {
            assert(seq![s[0]] + t.update(i - 1, (k, v)) =~= s.update(i, (k, v)));
        } else {
            assert(seq![s[0]] + t.push((k, v)) =~= s.push((k, v)));
        }
    }
}

proof fn lemma_lookup_at(s: Seq<(Seq<char>, Seq<char>)>, k: Seq<char>, i: int)
    requires
        0 <= i <= s.len(),
        forall|j: int| 0 <= j < i ==> s[j].0 != k,
        i < s.len() ==> s[i].0 == k,
    ensures
        lookup(s, k) == (if i < s.len() {
            Some(s[i].1)
        } else {
            None::<Seq<char>>
        }),
    decreases i,
{
    if i > 0 {
        lemma_lookup_at(s.drop_first(), k, i - 1);
    }
}

proof fn lemma_insert_lookup(s: Seq<(Seq<char>, Seq<char>)>, k: Seq<char>, v: Seq<char>)
    ensures
        lookup(insert_entry(s, k, v), k) == Some(v),
    decreases s.len(),
{
    if s.len() > 0 && s[0].0 != k {
        lemma_insert_lookup(s.drop_first(), k, v);
        assert((seq![s[0]] + insert_entry(s.drop_first(), k, v)).drop_first() =~= insert_entry(
            s.drop_first(),
            k,
            v,
        ));
    }
}

proof fn lemma_insert_keeps_unique(s: Seq<(Seq<char>, Seq<char>)>, k: Seq<char>, v: Seq<char>)
    requires
        names_unique(s),
    ensures
        names_unique(insert_entry(s, k, v)),
{
    let found = exists|j: int| 0 <= j < s.len() && s[j].0 == k;
    if found {
        let j = choose|j: int| 0 <= j < s.len() && s[j].0 == k;
        assert forall|m: int| 0 <= m < j implies s[m].0 != k by {
            if s[m].0 == k {
                assert(s[m].0 == s[j].0);
            }
        }
        lemma_insert_at(s, k, v, j);
        let r = s.update(j, (k, v));
        assert forall|a: int, b: int| 0 <= a < b < r.len() implies #[trigger] r[a].0 != #[trigger] r[b].0 by {
            assert(s[a].0 != s[b].0);
        }
        lemma_lookup_at(r, k, j);
    } else {
        lemma_insert_at(s, k, v, s.len() as int);
        let r = s.push((k, v));
        assert forall|a: int, b: int| 0 <= a < b < r.len() implies #[trigger] r[a].0 != #[trigger] r[b].0 by {
            if b < s.len() {
                assert(s[a].0 != s[b].0);
            } else {
                assert(r[a] == s[a]);
            }
        }
    }
}


/// The headers after setting each name and value of `ops` in turn.
pub open spec fn insert_all(s: Seq<(Seq<char>, Seq<char>)>, ops: Seq<(Seq<char>, Seq<char>)>) -> Seq<
    (Seq<char>, Seq<char>),
>
    decreases ops.len(),
{
    if ops.len() == 0 {
        s
    } else {
        insert_all(insert_entry(s, ops[0].0, ops[0].1), ops.drop_first())
    }
}

proof fn lemma_lookup_insert_other(s: Seq<(Seq<char>, Seq<char>)>, k: Seq<char>, v: Seq<char>, other: Seq<char>)
    requires
        k != other,
    ensures
        lookup(insert_entry(s, k, v), other) == lookup(s, other),
    decreases s.len(),
{
    if s.len() == 0 {
        let t = seq![(k, v)];
        assert(t.drop_first() =~= Seq::<(Seq<char>, Seq<char>)>::empty());
        assert(lookup(t.drop_first(), other) is None);
        assert(t[0].0 != other);
        assert(lookup(t, other) == lookup(t.drop_first(), other));
    } else {
        if s[0].0 == k {
            let t = seq![(k, v)] + s.drop_first();
            assert(t[0] == (k, v));
            assert(t.drop_first() =~= s.drop_first());
            if s[0].0 != other {
                assert(lookup(s, other) == lookup(s.drop_first(), other));
            }
        } else {
            let t = seq![s[0]] + insert_entry(s.drop_first(), k, v);
            assert(t[0] == s[0]);
            lemma_lookup_insert_other(s.drop_first(), k, v, other);
            assert((seq![s[0]] + insert_entry(s.drop_first(), k, v)).drop_first() =~= insert_entry(
                s.drop_first(),
                k,
                v,
            ));
        }
    }
}

/// Setting headers never changes the value of a name that none of the settings
/// names, and keeps names distinct.
pub proof fn settings_keep_other_headers(
    s: Seq<(Seq<char>, Seq<char>)>,
    ops: Seq<(Seq<char>, Seq<char>)>,
    other: Seq<char>,
)
    requires
        forall|i: int| 0 <= i < ops.len() ==> (#[trigger] ops[i]).0 != other,
    ensures
        lookup(insert_all(s, ops), other) == lookup(s, other),
        names_unique(s) ==> names_unique(insert_all(s, ops)),
    decreases ops.len(),
{
    if ops.len() > 0 {
        let s1 = insert_entry(s, ops[0].0, ops[0].1);
        assert(ops[0].0 != other);
        lemma_lookup_insert_other(s, ops[0].0, ops[0].1, other);
        if names_unique(s) {
            lemma_insert_keeps_unique(s, ops[0].0, ops[0].1);
        }
        assert forall|i: int| 0 <= i < ops.drop_first().len() implies (
        #[trigger] ops.drop_first()[i]).0 != other by {
            assert(ops.drop_first()[i] == ops[i + 1]);
        }
        settings_keep_other_headers(s1, ops.drop_first(), other);
    }
}

/// After a series of settings, a name holds the value of the last setting of it.
pub proof fn last_setting_wins(
    s: Seq<(Seq<char>, Seq<char>)>,
    ops: Seq<(Seq<char>, Seq<char>)>,
    k: Seq<char>,
    v: Seq<char>,
)
    ensures
        lookup(insert_all(s, ops.push((k, v))), k) == Some(v),
    decreases ops.len(),
{
    if ops.len() == 0 {
        assert(ops.push((k, v)).drop_first() =~= Seq::<(Seq<char>, Seq<char>)>::empty());
        assert(ops.push((k, v))[0] == (k, v));
        let s1 = insert_entry(s, k, v);
        assert(insert_all(s1, Seq::<(Seq<char>, Seq<char>)>::empty()) == s1);
        assert(insert_all(s, ops.push((k, v))) == insert_all(s1, ops.push((k, v)).drop_first()));
        lemma_insert_lookup(s, k, v);
    } else {
        assert(ops.push((k, v))[0] == ops[0]);
        assert(ops.push((k, v)).drop_first() =~= ops.drop_first().push((k, v)));
        assert(insert_all(s, ops.push((k, v))) == insert_all(
            insert_entry(s, ops[0].0, ops[0].1),
            ops.drop_first().push((k, v)),
        ));
        last_setting_wins(insert_entry(s, ops[0].0, ops[0].1), ops.drop_first(), k, v);
    }
}

/// A set of header fields with distinct names, kept in the order they were first set.
#[derive(Debug)]
pub struct Headers {
    entries: Vec<(String, String)>,
}

impl View for Headers {
    type V = Seq<(Seq<char>, Seq<char>)>;

    closed spec fn view(&self) -> Seq<(Seq<char>, Seq<char>)> {
        self.entries@.map_values(|e: (String, String)| entry_view(e))
    }
}

impl Headers {
    /// No headers.
    pub fn new() -> (r: Headers)
        ensures
            r@ == Seq::<(Seq<char>, Seq<char>)>::empty(),
    {
        let r = Headers { entries: Vec::new() };
        assert(r@ =~= Seq::<(Seq<char>, Seq<char>)>::empty());
        r
    }

    /// Sets header `name` to `value`, replacing the value of an entry of that name.
    pub fn insert(&mut self, name: String, value: String)
        ensures
            final(self)@ == insert_entry(old(self)@, name@, value@),
            lookup(final(self)@, name@) == Some(value@),
            names_unique(old(self)@) ==> names_unique(final(self)@),
    {
        proof {
            if names_unique(self@) {
                lemma_insert_keeps_unique(self@, name@, value@);
            }
            lemma_insert_lookup(self@, name@, value@);
        }
        let n = self.entries.len();
        let mut i: usize = 0;
        while i < n
            invariant
                i <= n,
                n == self.entries@.len(),
                self@ == old(self)@,
                lookup(insert_entry(old(self)@, name@, value@), name@) == Some(value@),
                names_unique(old(self)@) ==> names_unique(insert_entry(old(self)@, name@, value@)),
                forall|j: int| 0 <= j < i ==> self@[j].0 != name@,
            decreases n - i,
        {
            if self.entries[i].0 == name {
                proof {
                    lemma_insert_at(self@, name@, value@, i as int);
                }
                let ghost before = self@;
                self.entries.set(i, (name, value));
                assert(self@ =~= before.update(i as int, (name@, value@)));
                return;
            }
            i = i + 1;
        }
        proof {
            lemma_insert_at(self@, name@, value@, n as int);
        }
        let ghost before = self@;
        self.entries.push((name, value));
        assert(self@ =~= before.push((name@, value@)));
    }

    /// The value of header `name`, matched case-sensitively.
    pub fn get(&self, name: &str) -> (r: Option<&String>)
        ensures
            match r {
                Some(v) => lookup(self@, name@) == Some(v@),
                None => lookup(self@, name@) is None,
            },
    {
        let n = self.entries.len();
        let mut i: usize = 0;
        while i < n
            invariant
                i <= n,
                n == self.entries@.len(),
                forall|j: int| 0 <= j < i ==> self@[j].0 != name@,
            decreases n - i,
        {
            if same_text(self.entries[i].0.as_str(), name) {
                proof {
                    lemma_lookup_at(self@, name@, i as int);
                }
                return Some(&self.entries[i].1);
            }
            i = i + 1;
        }
        proof {
            lemma_lookup_at(self@, name@, n as int);
        }
        None
    }

    /// Name and value of the header at position `i`.
    pub fn entry(&self, i: usize) -> (r: (&String, &String))
        requires
            i < self@.len(),
        ensures
            r.0@ == self@[i as int].0,
            r.1@ == self@[i as int].1,
    {
        let e = &self.entries[i];
        (&e.0, &e.1)
    }

    /// Number of headers.
    pub fn len(&self) -> (r: usize)
        ensures
            r == self@.len(),
    {
        self.entries.len()
    }
}


} // verus!
