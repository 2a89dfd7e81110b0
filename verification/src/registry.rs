//! The tag registry: an ordered table of (tag, target-type path) entries.
//!
//! Lookup is first-match-wins.  The table starts from a fixed set of built-in
//! entries; entries loaded from the persisted meta table are appended after
//! them, so a persisted record can never displace a built-in resolution.

use vstd::prelude::*;
use vstd::string::StringExecFns;
use crate::chars::{char_is_ws, chars_string, str_chars};
use crate::strutil::{first_at_from, str_eq, trim_range, trim_seq};

verus! {

/// One registry entry: a markup tag and the type path it resolves to.
#[derive(Debug, Clone)]
pub struct Entry {
    pub tag: String,
    pub path: String,
}

/// The mathematical image of an [`Entry`].
pub ghost struct EntryV {
    pub tag: Seq<char>,
    pub path: Seq<char>,
}

impl View for Entry {
    type V = EntryV;

    open spec fn view(&self) -> EntryV {
        EntryV { tag: self.tag@, path: self.path@ }
    }
}

/// The views of a sequence of entries.
pub open spec fn entries_view(v: Seq<Entry>) -> Seq<EntryV> {
    v.map_values(|e: Entry| e@)
}

/// The built-in entries, always present before anything is loaded.
pub open spec fn builtin_entries() -> Seq<EntryV> {
    seq![
        EntryV { tag: "element"@, path: "mvcore::ui::elements::UiElementImpl"@ },
        EntryV { tag: ""@, path: "mvcore::ui::elements::Wrapper"@ },
        EntryV { tag: "label"@, path: "ui::Label"@ },
        EntryV { tag: "button"@, path: "ui::Button"@ },
    ]
}

/// First-match-wins lookup over an entry sequence.
pub open spec fn sp_lookup(entries: Seq<EntryV>, tag: Seq<char>) -> Option<Seq<char>>
    decreases entries.len(),
{
    if entries.len() == 0 {
        None
    } else if entries[0].tag == tag {
        Some(entries[0].path)
    } else {
        sp_lookup(entries.drop_first(), tag)
    }
}

/// An earlier entry shadows every later one: appending entries can never
/// change the resolution of a tag that already resolves.
pub proof fn lemma_lookup_append(pre: Seq<EntryV>, post: Seq<EntryV>, tag: Seq<char>)
    requires
        sp_lookup(pre, tag) is Some,
    ensures
        sp_lookup(pre + post, tag) == sp_lookup(pre, tag),
    decreases pre.len(),
{
    if pre.len() > 0 {
        assert((pre + post)[0] == pre[0]);
        if pre[0].tag != tag {
            assert((pre + post).drop_first() =~= pre.drop_first() + post);
            lemma_lookup_append(pre.drop_first(), post, tag);
        }
    }
}

/// Loading a persisted table never changes the resolution of a tag that
/// already resolves: the parsed records are appended after every existing
/// entry, and lookup is first-match-wins.
pub proof fn lemma_load_preserves_resolution(pre: Seq<EntryV>, table: Seq<char>, tag: Seq<char>)
    requires
        sp_lookup(pre, tag) is Some,
        sp_records(table) is Some,
    ensures
        sp_lookup(pre + sp_records(table).unwrap(), tag) == sp_lookup(pre, tag),
{
    lemma_lookup_append(pre, sp_records(table).unwrap(), tag);
}

/// The result of parsing one persisted record.
pub ghost enum RecordV {
    /// The empty stretch between two adjacent separators: skipped.
    Empty,
    /// A well-formed `tag=path` record.
    Pair(EntryV),
    /// A record with no `=` separator: a format error.
    Malformed,
}

/// Parses one raw record (the text between two `;` separators).
pub open spec fn sp_record(s: Seq<char>) -> RecordV {
    if s.len() == 0 {
        RecordV::Empty
    } else {
        let k: int = first_at_from(s, 0, '=');
        if k == s.len() {
            RecordV::Malformed
        } else {
            RecordV::Pair(
                EntryV {
                    tag: trim_seq(s.subrange(0, k)),
                    path: trim_seq(s.subrange(k + 1, s.len() as int)),
                },
            )
        }
    }
}

/// Parses a persisted meta table: `tag=path;` records.  Returns the entries
/// in order, or `None` on the first record lacking its `=` separator.
pub open spec fn sp_records(s: Seq<char>) -> Option<Seq<EntryV>>
    decreases s.len(),
{
    let k0: int = first_at_from(s, 0, ';');
    let k: int = if k0 < 0 {
        0
    } else if k0 > s.len() {
        s.len() as int
    } else {
        k0
    };
    if k == s.len() {
        // the final stretch, with no trailing separator
        match sp_record(s) {
            RecordV::Empty => Some(Seq::empty()),
            RecordV::Pair(e) => Some(seq![e]),
            RecordV::Malformed => None,
        }
    } else {
        match sp_record(s.subrange(0, k)) {
            RecordV::Empty => sp_records(s.subrange(k + 1, s.len() as int)),
            RecordV::Pair(e) => match sp_records(s.subrange(k + 1, s.len() as int)) {
                Some(rest) => Some(seq![e] + rest),
                None => None,
            },
            RecordV::Malformed => None,
        }
    }
}

/// The first raw record (the text between two `;` separators) that lacks
/// its `=`; meaningful when [`sp_records`] fails.
pub open spec fn sp_first_bad(s: Seq<char>) -> Seq<char>
    decreases s.len(),
{
    let k0: int = first_at_from(s, 0, ';');
    let k: int = if k0 < 0 {
        0
    } else if k0 > s.len() {
        s.len() as int
    } else {
        k0
    };
    if k == s.len() {
        s
    } else if sp_record(s.subrange(0, k)) is Malformed {
        s.subrange(0, k)
    } else {
        sp_first_bad(s.subrange(k + 1, s.len() as int))
    }
}

/// Failure to parse the persisted meta table.
#[derive(Debug, Clone, PartialEq)]
pub enum MetaFormatError {
    /// A record with no `=` separator; carries the record text.
    RecordMissingEquals(String),
}

/// The registry: ordered, append-only, first-match-wins.
pub struct Registry {
    entries: Vec<Entry>,
}

impl View for Registry {
    type V = Seq<EntryV>;

    closed spec fn view(&self) -> Seq<EntryV> {
        entries_view(self.entries@)
    }
}

impl Registry {
    /// A fresh registry holding exactly the built-in entries.
    pub fn new() -> (r: Registry)
        ensures
            r@ == builtin_entries(),
    {
        let mut entries: Vec<Entry> = Vec::new();
        entries.push(
            Entry {
                tag: String::from_str("element"),
                path: String::from_str("mvcore::ui::elements::UiElementImpl"),
            },
        );
        entries.push(
            Entry {
                tag: String::from_str(""),
                path: String::from_str("mvcore::ui::elements::Wrapper"),
            },
        );
        entries.push(Entry { tag: String::from_str("label"), path: String::from_str("ui::Label") });
        entries.push(
            Entry { tag: String::from_str("button"), path: String::from_str("ui::Button") },
        );
        let r = Registry { entries };
        proof {
            assert(r@ =~= builtin_entries());
        }
        r
    }

    /// Appends one entry; never replaces an existing one.
    pub fn register(&mut self, tag: String, path: String)
        ensures
            final(self)@ == old(self)@.push(EntryV { tag: tag@, path: path@ }),
    {
        let ghost pre = self@;
        let ghost e = EntryV { tag: tag@, path: path@ };
        self.entries.push(Entry { tag, path });
        proof {
            assert(self@ =~= pre.push(e));
        }
    }

    /// Resolves a tag to its type path: the first matching entry wins.
    pub fn lookup(&self, tag: &str) -> (r: Option<String>)
        ensures
            match r {
                Some(p) => sp_lookup(self@, tag@) == Some(p@),
                None => sp_lookup(self@, tag@) is None,
            },
    {
        let n: usize = self.entries.len();
        let mut i: usize = 0;
        proof {
            assert(entries_view(self.entries@).skip(0) =~= entries_view(self.entries@));
        }
        while i < n
            invariant
                n == self.entries@.len(),
                0 <= i <= n,
                sp_lookup(self@, tag@) == sp_lookup(
                    entries_view(self.entries@).skip(i as int),
                    tag@,
                ),
            decreases n - i,
        {
            proof {
                assert(entries_view(self.entries@).skip(i as int)[0] == self.entries@[i as int]@);
            }
            if str_eq(self.entries[i].tag.as_str(), tag) {
                return Some(self.entries[i].path.clone());
            }
            proof {
                assert(entries_view(self.entries@).skip(i as int).drop_first() =~= entries_view(
                    self.entries@,
                ).skip(i as int + 1));
            }
            i = i + 1;
        }
        proof {
            assert(entries_view(self.entries@).skip(n as int) =~= Seq::<EntryV>::empty());
        }
        None
    }

    /// Loads a persisted meta table, appending its records in order.  Fails,
    /// leaving the registry unchanged, on the first record with no `=`.
    pub fn load(&mut self, contents: &str) -> (r: Result<(), MetaFormatError>)
        ensures
            match r {
                Ok(()) => sp_records(contents@) is Some && final(self)@ == old(self)@
                    + sp_records(contents@).unwrap(),
                Err(MetaFormatError::RecordMissingEquals(t)) => sp_records(contents@) is None
                    && t@ == sp_first_bad(contents@) && final(self)@ == old(self)@,
            },
    {
        let v = str_chars(contents);
        let mut add: Vec<Entry> = Vec::new();
        let ghost s0 = v@;
        let mut i: usize = 0;
        proof {
            assert(s0.subrange(0, s0.len() as int) =~= s0);
        }
        loop
            invariant_except_break
                match sp_records(s0.subrange(i as int, s0.len() as int)) {
                    Some(rest) => sp_records(s0) == Some(entries_view(add@) + rest),
                    None => sp_records(s0) is None,
                },
                sp_first_bad(s0) == sp_first_bad(s0.subrange(i as int, s0.len() as int)),
            invariant
                v@ == s0,
                s0 == contents@,
                0 <= i <= s0.len(),
                self == old(self),
            ensures
                sp_records(s0) == Some(entries_view(add@)),
                self == old(self),
            decreases s0.len() - i,
        {
            let ghost tail = s0.subrange(i as int, s0.len() as int);
            // find the next ';', scanning relative to the unparsed tail
            let mut j: usize = i;
            while j < v.len() && v[j] != ';'
                invariant
                    v@ == s0,
                    i <= j <= s0.len(),
                    tail == s0.subrange(i as int, s0.len() as int),
                    first_at_from(tail, 0, ';') == first_at_from(tail, j - i, ';'),
                decreases s0.len() - j,
            {
                proof {
                    assert(tail[j - i] == s0[j as int]);
                }
                j = j + 1;
            }
            proof {
                if j < v.len() {
                    assert(tail[j - i] == s0[j as int]);
                }
                assert(first_at_from(tail, 0, ';') == j - i);
            }
            // the record is s0[i..j]
            let rec = parse_record(&v, i, j);
            proof {
                assert(tail.subrange(0, j - i) =~= s0.subrange(i as int, j as int));
                if j == v.len() {
                    assert(tail.subrange(0, j - i) =~= tail);
                }
            }
            let ghost add_pre = entries_view(add@);
            match rec {
                ParsedRecord::Empty => {},
                ParsedRecord::Pair(e) => {
                    let ghost ev = e@;
                    add.push(e);
                    proof {
                        assert(entries_view(add@) =~= add_pre.push(ev));
                    }
                },
                ParsedRecord::Malformed(text) => {
                    proof {
                        assert(sp_records(tail) is None);
                        if j as int == s0.len() {
                            assert(sp_first_bad(tail) == tail);
                        } else {
                            assert(sp_first_bad(tail) == tail.subrange(0, j - i));
                        }
                        assert(text@ == sp_first_bad(s0));
                    }
                    return Err(MetaFormatError::RecordMissingEquals(text));
                },
            }
            if j == v.len() {
                proof {
                    match sp_record(tail) {
                        RecordV::Empty => {
                            assert(sp_records(tail) == Some(Seq::<EntryV>::empty()));
                            assert(add_pre + Seq::<EntryV>::empty() =~= entries_view(add@));
                        },
                        RecordV::Pair(e) => {
                            assert(sp_records(tail) == Some(seq![e]));
                            assert(add_pre + seq![e] =~= entries_view(add@));
                        },
                        RecordV::Malformed => {},
                    }
                }
                break;
            }
            proof {
                let rest_tail = s0.subrange(j as int + 1, s0.len() as int);
                assert(tail.subrange(j - i + 1, tail.len() as int) =~= rest_tail);
                match sp_record(s0.subrange(i as int, j as int)) {
                    RecordV::Empty => {},
                    RecordV::Pair(e) => {
                        match sp_records(rest_tail) {
                            Some(rest) => {
                                assert(add_pre + (seq![e] + rest) =~= entries_view(add@) + rest);
                            },
                            None => {},
                        }
                    },
                    RecordV::Malformed => {},
                }
            }
            i = j + 1;
        }
        // append all parsed entries
        let ghost pre = self@;
        let ghost added = entries_view(add@);
        let n: usize = add.len();
        let mut k: usize = 0;
        proof {
            assert(pre + added.subrange(0, 0) =~= pre);
        }
        while k < n
            invariant
                n == add@.len(),
                0 <= k <= n,
                added == entries_view(add@),
                self@ == pre + added.subrange(0, k as int),
            decreases n - k,
        {
            let tag = add[k].tag.clone();
            let path = add[k].path.clone();
            proof {
                assert(added[k as int] == add@[k as int]@);
            }
            self.register(tag, path);
            k = k + 1;
            proof {
                assert(pre + added.subrange(0, k as int) =~= (pre + added.subrange(
                    0,
                    k as int - 1,
                )).push(added[k as int - 1]));
            }
        }
        proof {
            assert(added.subrange(0, added.len() as int) =~= added);
        }
        Ok(())
    }
}

/// The exec-side outcome of parsing one raw record.
enum ParsedRecord {
    Empty,
    Pair(Entry),
    Malformed(String),
}

/// Parses the raw record text `v[from..to]`, mirroring [`sp_record`].
fn parse_record(v: &Vec<char>, from: usize, to: usize) -> (r: ParsedRecord)
    requires
        from <= to <= v@.len(),
    ensures
        match r {
            ParsedRecord::Empty => sp_record(v@.subrange(from as int, to as int)) is Empty,
            ParsedRecord::Pair(e) => sp_record(v@.subrange(from as int, to as int)) == RecordV::Pair(
                e@,
            ),
            ParsedRecord::Malformed(t) => sp_record(v@.subrange(from as int, to as int))
                is Malformed && t@ == v@.subrange(from as int, to as int),
        },
{
    let ghost s = v@.subrange(from as int, to as int);
    if from == to {
        return ParsedRecord::Empty;
    }
    // find the '=' separator
    let mut k: usize = from;
    while k < to && v[k] != '='
        invariant
            from <= k <= to <= v@.len(),
            s == v@.subrange(from as int, to as int),
            first_at_from(s, 0, '=') == first_at_from(s, k - from, '='),
        decreases to - k,
    {
        proof {
            assert(s[k - from] == v@[k as int]);
        }
        k = k + 1;
    }
    proof {
        if k < to {
            assert(s[k - from] == v@[k as int]);
        }
        assert(first_at_from(s, 0, '=') == k - from);
    }
    if k == to {
        return ParsedRecord::Malformed(chars_string(v, from, to));
    }
    let tag = trim_range(v, from, k);
    let path = trim_range(v, k + 1, to);
    proof {
        assert(s.subrange(0, k - from) =~= v@.subrange(from as int, k as int));
        assert(s.subrange(k - from + 1, s.len() as int) =~= v@.subrange(k as int + 1, to as int));
    }
    ParsedRecord::Pair(Entry { tag, path })
}

} // verus!
