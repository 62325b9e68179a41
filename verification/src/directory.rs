use vstd::prelude::*;

use crate::normalize::{lower_of, lowercase, normalize_phone, normalize_phone_spec};

verus! {

/// One (first name, last name, phone-or-email) tuple read out of a contact
/// source. `value` is the phone number or email address exactly as stored.
pub struct NameRecord {
    pub first: Option<String>,
    pub last: Option<String>,
    pub value: String,
}

/// The abstract form of a `NameRecord`: its strings as character sequences.
pub struct NameRecordV {
    pub first: Option<Seq<char>>,
    pub last: Option<Seq<char>>,
    pub value: Seq<char>,
}

impl View for NameRecord {
    type V = NameRecordV;

    open spec fn view(&self) -> NameRecordV {
        NameRecordV {
            first: match self.first {
                Some(f) => Some(f@),
                None => None,
            },
            last: match self.last {
                Some(l) => Some(l@),
                None => None,
            },
            value: self.value@,
        }
    }
}

/// Everything read out of one contact-source database: its phone tuples and
/// its email tuples, each in the source's own row order.
pub struct ContactSource {
    pub phones: Vec<NameRecord>,
    pub emails: Vec<NameRecord>,
}

/// The abstract form of a `ContactSource`.
pub struct ContactSourceV {
    pub phones: Seq<NameRecordV>,
    pub emails: Seq<NameRecordV>,
}

impl View for ContactSource {
    type V = ContactSourceV;

    open spec fn view(&self) -> ContactSourceV {
        ContactSourceV {
            phones: self.phones@.map_values(|r: NameRecord| r@),
            emails: self.emails@.map_values(|r: NameRecord| r@),
        }
    }
}

/// The display name a record composes: first and last joined by one space
/// when both are present, the one present otherwise, nothing when neither is.
pub open spec fn compose_name_spec(first: Option<Seq<char>>, last: Option<Seq<char>>) -> Option<
    Seq<char>,
> {
    match (first, last) {
        (Some(f), Some(l)) => Some(f + " "@ + l),
        (Some(f), None) => Some(f),
        (None, Some(l)) => Some(l),
        (None, None) => None,
    }
}

/// Compose a display name from optional first and last names.
pub fn compose_name(first: &Option<String>, last: &Option<String>) -> (r: Option<String>)
    ensures
        (match r {
            Some(n) => Some(n@),
            None => None::<Seq<char>>,
        }) == compose_name_spec(
            match first {
                Some(f) => Some(f@),
                None => None,
            },
            match last {
                Some(l) => Some(l@),
                None => None,
            },
        ),
{
    match (first, last) {
        (Some(f), Some(l)) => Some(f.clone().concat(" ").concat(l.as_str())),
        (Some(f), None) => Some(f.clone()),
        (None, Some(l)) => Some(l.clone()),
        (None, None) => None,
    }
}

/// A merged identifier-to-display-name mapping. Later insertions overwrite
/// earlier ones on the same key; the view is the resulting map.
pub struct ContactDirectory {
    entries: Vec<(String, String)>,
}

/// The map an entry list denotes: each entry inserted in order, so the
/// latest entry with a given key gives that key's value.
pub open spec fn map_of_entries(entries: Seq<(String, String)>) -> Map<Seq<char>, Seq<char>>
    decreases entries.len(),
{
    if entries.len() == 0 {
        Map::empty()
    } else {
        map_of_entries(entries.drop_last()).insert(entries.last().0@, entries.last().1@)
    }
}

impl View for ContactDirectory {
    type V = Map<Seq<char>, Seq<char>>;

    closed spec fn view(&self) -> Map<Seq<char>, Seq<char>> {
        map_of_entries(self.entries@)
    }
}

/// Entries at or past position `i` whose key is not `k` do not affect what
/// the denoted map holds at `k`.
proof fn lemma_map_of_entries_suffix(entries: Seq<(String, String)>, i: int, k: Seq<char>)
    requires
        0 <= i <= entries.len(),
        forall|j: int| i <= j < entries.len() ==> (#[trigger] entries[j].0)@ != k,
    ensures
        map_of_entries(entries).contains_key(k) == map_of_entries(entries.take(i)).contains_key(k),
        map_of_entries(entries).contains_key(k) ==> map_of_entries(entries)[k] == map_of_entries(
            entries.take(i),
        )[k],
    decreases entries.len() - i,
{
    if i == entries.len() {
        assert(entries.take(i) =~= entries);
    } else {
        assert(entries.drop_last() =~= entries.take(entries.len() - 1));
        lemma_map_of_entries_suffix(entries.take(entries.len() - 1), i, k);
        assert(entries.take(entries.len() - 1).take(i) =~= entries.take(i));
    }
}

impl ContactDirectory {
    /// An empty directory.
    pub fn new() -> (r: ContactDirectory)
        ensures
            r@ == Map::<Seq<char>, Seq<char>>::empty(),
    {
        ContactDirectory { entries: Vec::new() }
    }

    /// Record that `key` maps to `name`, overwriting any earlier binding.
    pub fn insert(&mut self, key: String, name: String)
        ensures
            final(self)@ == old(self)@.insert(key@, name@),
    {
        let ghost k = key@;
        let ghost n = name@;
        self.entries.push((key, name));
        proof {
            assert(self.entries@.drop_last() =~= old(self).entries@);
            assert(self.entries@.last().0@ == k);
            assert(self.entries@.last().1@ == n);
        }
    }

    /// The name bound to `key`, where one is: the latest binding wins.
    pub fn get(&self, key: &String) -> (r: Option<&String>)
        ensures
            match r {
                Some(n) => self@.contains_key(key@) && n@ == self@[key@],
                None => !self@.contains_key(key@),
            },
    {
        let mut i: usize = self.entries.len();
        while i > 0
            invariant
                i <= self.entries.len(),
                forall|j: int|
                    i <= j < self.entries@.len() ==> (#[trigger] self.entries@[j].0)@ != key@,
            decreases i,
        {
            i = i - 1;
            if self.entries[i].0 == *key {
                proof {
                    lemma_map_of_entries_suffix(self.entries@, i + 1, key@);
                    let pre = self.entries@.take(i + 1);
                    assert(pre.drop_last() =~= self.entries@.take(i as int));
                    assert(pre.last() == self.entries@[i as int]);
                }
                return Some(&self.entries[i].1);
            }
        }
        proof {
            lemma_map_of_entries_suffix(self.entries@, 0, key@);
            assert(self.entries@.take(0) =~= Seq::<(String, String)>::empty());
        }
        None
    }

    /// Whether the directory binds no key at all.
    pub fn is_empty(&self) -> (r: bool)
        ensures
            r == (self@ == Map::<Seq<char>, Seq<char>>::empty()),
    {
        proof {
            if self.entries@.len() == 0 {
                assert(self@ =~= Map::<Seq<char>, Seq<char>>::empty());
            } else {
                assert(self@.contains_key(self.entries@.last().0@));
            }
        }
        self.entries.len() == 0
    }
}

/// The directory after one phone tuple: nothing when no name can be
/// composed; otherwise the normalized key and its "+1"-prefixed variant
/// (when at least one digit was present) and the raw phone string, each
/// bound to the composed name.
pub open spec fn dir_after_phone(m: Map<Seq<char>, Seq<char>>, rec: NameRecordV) -> Map<
    Seq<char>,
    Seq<char>,
> {
    match compose_name_spec(rec.first, rec.last) {
        None => m,
        Some(name) => {
            let norm = normalize_phone_spec(rec.value);
            let m1 = if norm.len() > 0 {
                m.insert(norm, name).insert("+1"@ + norm, name)
            } else {
                m
            };
            m1.insert(rec.value, name)
        },
    }
}

/// The directory after one email tuple: the lowercased address bound to the
/// composed name, or nothing when no name can be composed.
pub open spec fn dir_after_email(m: Map<Seq<char>, Seq<char>>, rec: NameRecordV) -> Map<
    Seq<char>,
    Seq<char>,
> {
    match compose_name_spec(rec.first, rec.last) {
        None => m,
        Some(name) => m.insert(lower_of(rec.value), name),
    }
}

/// The directory after a run of phone tuples, processed in order.
pub open spec fn dir_after_phones(m: Map<Seq<char>, Seq<char>>, recs: Seq<NameRecordV>) -> Map<
    Seq<char>,
    Seq<char>,
>
    decreases recs.len(),
{
    if recs.len() == 0 {
        m
    } else {
        dir_after_phone(dir_after_phones(m, recs.drop_last()), recs.last())
    }
}

/// The directory after a run of email tuples, processed in order.
pub open spec fn dir_after_emails(m: Map<Seq<char>, Seq<char>>, recs: Seq<NameRecordV>) -> Map<
    Seq<char>,
    Seq<char>,
>
    decreases recs.len(),
{
    if recs.len() == 0 {
        m
    } else {
        dir_after_email(dir_after_emails(m, recs.drop_last()), recs.last())
    }
}

/// The directory after one whole contact source: its phone tuples first,
/// then its email tuples.
pub open spec fn dir_after_source(m: Map<Seq<char>, Seq<char>>, src: ContactSourceV) -> Map<
    Seq<char>,
    Seq<char>,
> {
    dir_after_emails(dir_after_phones(m, src.phones), src.emails)
}

/// The directory after a run of sources, merged in discovery order: a later
/// source overwrites an earlier one wherever both bind a key.
pub open spec fn dir_after_sources(m: Map<Seq<char>, Seq<char>>, srcs: Seq<ContactSourceV>) -> Map<
    Seq<char>,
    Seq<char>,
>
    decreases srcs.len(),
{
    if srcs.len() == 0 {
        m
    } else {
        dir_after_source(dir_after_sources(m, srcs.drop_last()), srcs.last())
    }
}

/// At any one key, a run of phone tuples either binds it itself — to the
/// same name whatever directory it started from — or passes the starting
/// directory's binding through untouched.
proof fn lemma_phones_at_key(
    m1: Map<Seq<char>, Seq<char>>,
    m2: Map<Seq<char>, Seq<char>>,
    recs: Seq<NameRecordV>,
    k: Seq<char>,
)
    ensures
        ({
            let r1 = dir_after_phones(m1, recs);
            let r2 = dir_after_phones(m2, recs);
            (r1.contains_key(k) && r2.contains_key(k) && r1[k] == r2[k]) || (r1.contains_key(k)
                == m1.contains_key(k) && (m1.contains_key(k) ==> r1[k] == m1[k])
                && r2.contains_key(k) == m2.contains_key(k) && (m2.contains_key(k) ==> r2[k]
                == m2[k]))
        }),
    decreases recs.len(),
{
    if recs.len() > 0 {
        lemma_phones_at_key(m1, m2, recs.drop_last(), k);
    }
}

/// The counterpart of `lemma_phones_at_key` for a run of email tuples.
proof fn lemma_emails_at_key(
    m1: Map<Seq<char>, Seq<char>>,
    m2: Map<Seq<char>, Seq<char>>,
    recs: Seq<NameRecordV>,
    k: Seq<char>,
)
    ensures
        ({
            let r1 = dir_after_emails(m1, recs);
            let r2 = dir_after_emails(m2, recs);
            (r1.contains_key(k) && r2.contains_key(k) && r1[k] == r2[k]) || (r1.contains_key(k)
                == m1.contains_key(k) && (m1.contains_key(k) ==> r1[k] == m1[k])
                && r2.contains_key(k) == m2.contains_key(k) && (m2.contains_key(k) ==> r2[k]
                == m2[k]))
        }),
    decreases recs.len(),
{
    if recs.len() > 0 {
        lemma_emails_at_key(m1, m2, recs.drop_last(), k);
    }
}

/// At any one key, a whole source either binds it itself — to the same name
/// whatever directory it started from — or passes the starting directory's
/// binding through untouched.
proof fn lemma_source_at_key(
    m1: Map<Seq<char>, Seq<char>>,
    m2: Map<Seq<char>, Seq<char>>,
    src: ContactSourceV,
    k: Seq<char>,
)
    ensures
        ({
            let r1 = dir_after_source(m1, src);
            let r2 = dir_after_source(m2, src);
            (r1.contains_key(k) && r2.contains_key(k) && r1[k] == r2[k]) || (r1.contains_key(k)
                == m1.contains_key(k) && (m1.contains_key(k) ==> r1[k] == m1[k])
                && r2.contains_key(k) == m2.contains_key(k) && (m2.contains_key(k) ==> r2[k]
                == m2[k]))
        }),
{
    lemma_phones_at_key(m1, m2, src.phones, k);
    lemma_emails_at_key(dir_after_phones(m1, src.phones), dir_after_phones(m2, src.phones),
        src.emails, k);
}

/// Merge precedence: when the later of two sources binds a key at all, the
/// directory merged from both holds the later source's name for that key,
/// whatever the earlier source or the starting directory said.
pub proof fn lemma_later_source_wins(
    base: Map<Seq<char>, Seq<char>>,
    s1: ContactSourceV,
    s2: ContactSourceV,
    k: Seq<char>,
)
    requires
        dir_after_source(Map::<Seq<char>, Seq<char>>::empty(), s2).contains_key(k),
    ensures
        dir_after_sources(base, seq![s1, s2]).contains_key(k),
        dir_after_sources(base, seq![s1, s2])[k] == dir_after_source(
            Map::<Seq<char>, Seq<char>>::empty(),
            s2,
        )[k],
{
    let both = seq![s1, s2];
    let one = seq![s1];
    assert(both.drop_last() =~= one);
    assert(both.last() == s2);
    assert(one.drop_last() =~= Seq::<ContactSourceV>::empty());
    assert(one.last() == s1);
    assert(dir_after_sources(base, Seq::<ContactSourceV>::empty()) == base);
    let after1 = dir_after_source(base, s1);
    assert(dir_after_sources(base, one) == after1);
    assert(dir_after_sources(base, both) == dir_after_source(after1, s2));
    lemma_source_at_key(after1, Map::<Seq<char>, Seq<char>>::empty(), s2, k);
    assert(!Map::<Seq<char>, Seq<char>>::empty().contains_key(k));
}

/// Record one phone tuple in the directory.
pub fn add_phone_record(dir: &mut ContactDirectory, rec: &NameRecord)
    ensures
        final(dir)@ == dir_after_phone(old(dir)@, rec@),
{
    let name = match compose_name(&rec.first, &rec.last) {
        Some(n) => n,
        None => {
            return ;
        },
    };
    let norm = normalize_phone(rec.value.as_str());
    if !norm.as_str().is_empty() {
        dir.insert(norm.clone(), name.clone());
        let prefixed = String::from_str("+1").concat(norm.as_str());
        dir.insert(prefixed, name.clone());
    }
    dir.insert(rec.value.clone(), name);
}

/// Record one email tuple in the directory.
pub fn add_email_record(dir: &mut ContactDirectory, rec: &NameRecord)
    ensures
        final(dir)@ == dir_after_email(old(dir)@, rec@),
{
    let name = match compose_name(&rec.first, &rec.last) {
        Some(n) => n,
        None => {
            return ;
        },
    };
    let low = lowercase(rec.value.as_str());
    dir.insert(low, name);
}

/// Merge every discovered contact source into one directory, in discovery
/// order: per source its phone tuples then its email tuples, and a later
/// source overwriting an earlier one on key collision. No sources at all
/// yield an empty directory.
pub fn get_contact_names(sources: &Vec<ContactSource>) -> (r: ContactDirectory)
    ensures
        r@ == dir_after_sources(
            Map::<Seq<char>, Seq<char>>::empty(),
            sources@.map_values(|s: ContactSource| s@),
        ),
{
    let ghost srcs = sources@.map_values(|s: ContactSource| s@);
    let mut dir = ContactDirectory::new();
    let mut i: usize = 0;
    while i < sources.len()
        invariant
            i <= sources.len(),
            srcs == sources@.map_values(|s: ContactSource| s@),
            srcs.len() == sources@.len(),
            dir@ == dir_after_sources(Map::<Seq<char>, Seq<char>>::empty(), srcs.take(i as int)),
        decreases sources.len() - i,
    {
        let src = &sources[i];
        let ghost before = dir@;
        let mut p: usize = 0;
        while p < src.phones.len()
            invariant
                p <= src.phones.len(),
                dir@ == dir_after_phones(before, src@.phones.take(p as int)),
            decreases src.phones.len() - p,
        {
            add_phone_record(&mut dir, &src.phones[p]);
            proof {
                let t = src@.phones.take(p + 1 as int);
                assert(t.drop_last() =~= src@.phones.take(p as int));
                assert(t.last() == src@.phones[p as int]);
            }
            p = p + 1;
        }
        proof {
            assert(src@.phones.take(src.phones@.len() as int) =~= src@.phones);
        }
        let mut q: usize = 0;
        let ghost mid = dir@;
        while q < src.emails.len()
            invariant
                q <= src.emails.len(),
                dir@ == dir_after_emails(mid, src@.emails.take(q as int)),
            decreases src.emails.len() - q,
        {
            add_email_record(&mut dir, &src.emails[q]);
            proof {
                let t = src@.emails.take(q + 1 as int);
                assert(t.drop_last() =~= src@.emails.take(q as int));
                assert(t.last() == src@.emails[q as int]);
            }
            q = q + 1;
        }
        proof {
            assert(src@.emails.take(src.emails@.len() as int) =~= src@.emails);
            let t = srcs.take(i + 1 as int);
            assert(t.drop_last() =~= srcs.take(i as int));
            assert(t.last() == srcs[i as int]);
            assert(srcs[i as int] == src@);
        }
        i = i + 1;
    }
    proof {
        assert(srcs.take(sources@.len() as int) =~= srcs);
    }
    dir
}

} // verus!
