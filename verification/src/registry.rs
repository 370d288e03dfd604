//! The names that a parse can resolve: tags and known values.

use vstd::prelude::*;
use vstd::slice::{slice_subrange, slice_to_vec};
use vstd::string::StringSliceAdditionalSpecFns;
use crate::item::{registered_known_value, registered_tag};
use crate::lexeme::{Kind, Lexeme, lemma_lex_at, lex_at};
use crate::lexer::next_lexeme;
use crate::scan::{Class, scan_run};
use crate::token::{lemma_token_shape, to_lower, ur_type};

verus! {

/// A name and the number registered under it.
#[derive(Clone, Debug, PartialEq, Eq)]
pub struct Entry {
    pub name: Vec<u8>,
    pub value: u64,
}

impl View for Entry {
    type V = (Seq<u8>, u64);

    open spec fn view(&self) -> (Seq<u8>, u64) {
        (self.name@, self.value)
    }
}

/// The names of tags and of known values, each with its number. Where a
/// name stands more than once in a list, its first entry counts.
#[derive(Clone, Debug, PartialEq, Eq)]
pub struct Registry {
    pub tags: Vec<Entry>,
    pub known_values: Vec<Entry>,
}

/// The names as the grammar takes them: two lists of names with numbers.
pub struct Env {
    pub tags: Seq<(Seq<u8>, u64)>,
    pub known_values: Seq<(Seq<u8>, u64)>,
}

/// The entries of a list, each as a name with its number.
pub open spec fn entries_view(entries: Seq<Entry>) -> Seq<(Seq<u8>, u64)> {
    entries.map_values(|e: Entry| e@)
}

impl View for Registry {
    type V = Env;

    open spec fn view(&self) -> Env {
        Env { tags: entries_view(self.tags@), known_values: entries_view(self.known_values@) }
    }
}

/// The number of the first entry under `name`, if there is one.
pub open spec fn find(entries: Seq<(Seq<u8>, u64)>, name: Seq<u8>) -> Option<u64>
    decreases entries.len(),
{
    if entries.len() == 0 {
        None
    } else if entries[0].0 == name {
        Some(entries[0].1)
    } else {
        find(entries.drop_first(), name)
    }
}

/// Entries that do not stand under `name` can be left out in front.
pub proof fn lemma_find_skip(entries: Seq<(Seq<u8>, u64)>, name: Seq<u8>, i: int)
    requires
        0 <= i <= entries.len(),
        forall|k: int| 0 <= k < i ==> (#[trigger] entries[k]).0 != name,
    ensures
        find(entries, name) == find(entries.subrange(i, entries.len() as int), name),
    decreases i,
{
    if i == 0 {
        assert(entries.subrange(0, entries.len() as int) =~= entries);
    } else {
        let rest = entries.drop_first();
        assert forall|k: int| 0 <= k < i - 1 implies (#[trigger] rest[k]).0 != name by {
            assert(rest[k] == entries[k + 1]);
        }
        lemma_find_skip(rest, name, i - 1);
        assert(rest.subrange(i - 1, rest.len() as int) =~= entries.subrange(
            i,
            entries.len() as int,
        ));
    }
}

/// Whether two slices hold the same bytes.
pub fn same_bytes(a: &[u8], b: &[u8]) -> (r: bool)
    ensures
        r == (a@ == b@),
{
    if a.len() != b.len() {
        return false;
    }
    let mut i: usize = 0;
    while i < a.len()
        invariant
            i <= a.len(),
            a.len() == b.len(),
            forall|k: int| 0 <= k < i ==> a@[k] == b@[k],
        decreases a.len() - i,
    {
        if a[i] != b[i] {
            return false;
        }
        i += 1;
    }
    assert(a@ =~= b@);
    true
}

/// The number of the first entry under `name`, if there is one.
pub fn lookup(entries: &Vec<Entry>, name: &[u8]) -> (r: Option<u64>)
    ensures
        r == find(entries_view(entries@), name@),
{
    let ghost all = entries_view(entries@);
    let mut i: usize = 0;
    while i < entries.len()
        invariant
            i <= entries.len(),
            all == entries_view(entries@),
            forall|k: int| 0 <= k < i ==> (#[trigger] all[k]).0 != name@,
        decreases entries.len() - i,
    {
        if same_bytes(entries[i].name.as_slice(), name) {
            proof {
                lemma_find_skip(all, name@, i as int);
                assert(all.subrange(i as int, all.len() as int)[0] == all[i as int]);
            }
            return Some(entries[i].value);
        }
        i += 1;
    }
    proof {
        lemma_find_skip(all, name@, i as int);
    }
    None
}

impl Registry {
    /// A registry without names.
    pub fn new() -> (r: Registry)
        ensures
            r@.tags.len() == 0,
            r@.known_values.len() == 0,
    {
        Registry { tags: Vec::new(), known_values: Vec::new() }
    }

    /// Adds the tag `value` under `name`, behind the entries that are there.
    pub fn add_tag(&mut self, name: &str, value: u64)
        ensures
            final(self)@.tags == old(self)@.tags.push((name.spec_bytes(), value)),
            final(self)@.known_values == old(self)@.known_values,
    {
        self.tags.push(Entry { name: slice_to_vec(name.as_bytes()), value });
        assert(final(self)@.tags =~= old(self)@.tags.push((name.spec_bytes(), value)));
    }

    /// Adds the known value `value` under `name`, behind the entries that
    /// are there.
    pub fn add_known_value(&mut self, name: &str, value: u64)
        ensures
            final(self)@.known_values == old(self)@.known_values.push((name.spec_bytes(), value)),
            final(self)@.tags == old(self)@.tags,
    {
        self.known_values.push(Entry { name: slice_to_vec(name.as_bytes()), value });
        assert(final(self)@.known_values =~= old(self)@.known_values.push(
            (name.spec_bytes(), value),
        ));
    }

    /// The number of the tag named `name`, if there is one.
    pub fn tag_for_name(&self, name: &[u8]) -> (r: Option<u64>)
        ensures
            r == find(self@.tags, name@),
    {
        lookup(&self.tags, name)
    }

    /// The number of the known value named `name`, if there is one.
    pub fn known_value_for_name(&self, name: &[u8]) -> (r: Option<u64>)
        ensures
            r == find(self@.known_values, name@),
    {
        lookup(&self.known_values, name)
    }

    /// The names in a source text that the process-wide registries of tags
    /// and of known values hold, each with the number found there. The
    /// names that the source asks for are looked up one by one, in the order
    /// of the source: the names of tag heads and the types of URs among the
    /// tags, the names in single quotes among the known values. A name
    /// that is found gets an entry with its number, behind the entries of
    /// the names before it; a name that is not found gets none. What the
    /// registries answer is not known here.
    pub(crate) fn registered_in(s: &[u8]) -> (r: Registry)
        ensures
            exists|tags: Seq<Option<u64>>, known: Seq<Option<u64>>| found_as(r@, s@, tags, known),
    {
        let mut r = Registry::new();
        let mut p: usize = 0;
        let ghost mut tag_names: Seq<Seq<u8>> = Seq::empty();
        let ghost mut tag_answers: Seq<Option<u64>> = Seq::empty();
        let ghost mut known_names: Seq<Seq<u8>> = Seq::empty();
        let ghost mut known_answers: Seq<Option<u64>> = Seq::empty();
        proof {
            assert(tag_names + tag_names_from(s@, 0) =~= tag_names_from(s@, 0));
            assert(known_names + known_names_from(s@, 0) =~= known_names_from(s@, 0));
            assert(r@.tags =~= answered(tag_names, tag_answers));
            assert(r@.known_values =~= answered(known_names, known_answers));
        }
        loop
            invariant
                p <= s.len(),
                tag_names_from(s@, 0) == tag_names + tag_names_from(s@, p as int),
                known_names_from(s@, 0) == known_names + known_names_from(s@, p as int),
                tag_answers.len() == tag_names.len(),
                known_answers.len() == known_names.len(),
                r@.tags == answered(tag_names, tag_answers),
                r@.known_values == answered(known_names, known_answers),
            decreases s.len() - p,
        {
            let f = match next_lexeme(s, p) {
                None => {
                    proof {
                        assert(tag_names + tag_names_from(s@, p as int) =~= tag_names);
                        assert(known_names + known_names_from(s@, p as int) =~= known_names);
                        assert(found_as(r@, s@, tag_answers, known_answers));
                    }
                    return r;
                },
                Some(f) => f,
            };
            let start = f.span.start;
            let end = f.span.end;
            let ghost l = f@;
            proof {
                lemma_token_shape(s@, start as int);
            }
            let ghost tags_before = r.tags@;
            let ghost known_before = r.known_values@;
            match f.kind {
                Kind::Unrecognized => {
                    proof {
                        assert(tag_names + tag_names_from(s@, p as int) =~= tag_names);
                        assert(known_names + known_names_from(s@, p as int) =~= known_names);
                        assert(found_as(r@, s@, tag_answers, known_answers));
                    }
                    return r;
                },
                Kind::TagName => {
                    let name = slice_subrange(s, start, end - 1);
                    let answer = registered_tag(name);
                    if let Some(value) = answer {
                        r.tags.push(Entry { name: slice_to_vec(name), value });
                    }
                    proof {
                        lemma_answered_push(tag_names, tag_answers, name@, answer);
                        assert(entries_view(r.tags@) =~= answered(
                            tag_names.push(name@),
                            tag_answers.push(answer),
                        ));
                        tag_names = tag_names.push(name@);
                        tag_answers = tag_answers.push(answer);
                    }
                },
                Kind::UR => {
                    let slash = scan_run(s, start + 3, Class::UrTypeChar);
                    let name = to_lower(slice_subrange(s, start + 3, slash));
                    let answer = registered_tag(name.as_slice());
                    let ghost asked = name@;
                    if let Some(value) = answer {
                        r.tags.push(Entry { name, value });
                    }
                    proof {
                        assert(asked == ur_type(s@, l));
                        lemma_answered_push(tag_names, tag_answers, asked, answer);
                        assert(entries_view(r.tags@) =~= answered(
                            tag_names.push(asked),
                            tag_answers.push(answer),
                        ));
                        tag_names = tag_names.push(asked);
                        tag_answers = tag_answers.push(answer);
                    }
                },
                Kind::KnownValueName => {
                    let name = slice_subrange(s, start + 1, end - 1);
                    let answer = registered_known_value(name);
                    if let Some(value) = answer {
                        r.known_values.push(Entry { name: slice_to_vec(name), value });
                    }
                    proof {
                        lemma_answered_push(known_names, known_answers, name@, answer);
                        assert(entries_view(r.known_values@) =~= answered(
                            known_names.push(name@),
                            known_answers.push(answer),
                        ));
                        known_names = known_names.push(name@);
                        known_answers = known_answers.push(answer);
                    }
                },
                _ => {},
            }
            proof {
                assert(tag_names + tag_names_from(s@, end as int) =~= tag_names_from(s@, 0));
                assert(known_names + known_names_from(s@, end as int) =~= known_names_from(
                    s@,
                    0,
                ));
            }
            p = end;
        }
    }
}

/// The name that a token asks the registry of tags for: the name of a tag's
/// head, or the type of a UR in lower case.
pub open spec fn tag_asked(s: Seq<u8>, l: Lexeme) -> Option<Seq<u8>> {
    if l.kind == Kind::TagName {
        Some(s.subrange(l.start, l.end - 1))
    } else if l.kind == Kind::UR {
        Some(ur_type(s, l))
    } else {
        None
    }
}

/// The name that a token asks the registry of known values for: the name
/// between single quotes.
pub open spec fn known_asked(s: Seq<u8>, l: Lexeme) -> Option<Seq<u8>> {
    if l.kind == Kind::KnownValueName {
        Some(s.subrange(l.start + 1, l.end - 1))
    } else {
        None
    }
}

/// The names with `name`, if there is one, in front of them.
pub open spec fn with_name(name: Option<Seq<u8>>, names: Seq<Seq<u8>>) -> Seq<Seq<u8>> {
    match name {
        Some(n) => seq![n] + names,
        None => names,
    }
}

/// The names that the tokens of a source ask the registry of tags for, from
/// `p` on and in the order of the source, as far as the lexer recognizes
/// tokens.
pub open spec fn tag_names_from(s: Seq<u8>, p: int) -> Seq<Seq<u8>>
    decreases s.len() - p,
{
    match lex_at(s, p) {
        None => Seq::empty(),
        Some(l) => {
            proof {
                lemma_lex_at(s, p);
            }
            if l.kind == Kind::Unrecognized {
                Seq::empty()
            } else {
                with_name(tag_asked(s, l), tag_names_from(s, l.end))
            }
        },
    }
}

/// The names that the tokens of a source ask the registry of known values
/// for, from `p` on and in the order of the source, as far as the lexer
/// recognizes tokens.
pub open spec fn known_names_from(s: Seq<u8>, p: int) -> Seq<Seq<u8>>
    decreases s.len() - p,
{
    match lex_at(s, p) {
        None => Seq::empty(),
        Some(l) => {
            proof {
                lemma_lex_at(s, p);
            }
            if l.kind == Kind::Unrecognized {
                Seq::empty()
            } else {
                with_name(known_asked(s, l), known_names_from(s, l.end))
            }
        },
    }
}

/// The entries that names get from the answers to them, one answer for each
/// name: an entry with its number for each name that was found, in the
/// order of the names, and none for a name that was not found.
pub open spec fn answered(names: Seq<Seq<u8>>, answers: Seq<Option<u64>>) -> Seq<(Seq<u8>, u64)>
    decreases names.len(),
{
    if names.len() == 0 {
        Seq::empty()
    } else {
        let before = answered(names.drop_last(), answers.drop_last());
        match answers.last() {
            Some(value) => before.push((names.last(), value)),
            None => before,
        }
    }
}

/// Whether the names are those that the source asks for, each with the
/// number that it was answered with: `tags` and `known` hold one answer for
/// each name that the source asks the two registries for.
pub open spec fn found_as(
    env: Env,
    s: Seq<u8>,
    tags: Seq<Option<u64>>,
    known: Seq<Option<u64>>,
) -> bool {
    &&& tags.len() == tag_names_from(s, 0).len()
    &&& known.len() == known_names_from(s, 0).len()
    &&& env.tags == answered(tag_names_from(s, 0), tags)
    &&& env.known_values == answered(known_names_from(s, 0), known)
}

/// One more name with its answer adds its entry, if it was found, behind
/// the entries of the names before it.
pub proof fn lemma_answered_push(
    names: Seq<Seq<u8>>,
    answers: Seq<Option<u64>>,
    name: Seq<u8>,
    answer: Option<u64>,
)
    ensures
        answered(names.push(name), answers.push(answer)) == match answer {
            Some(value) => answered(names, answers).push((name, value)),
            None => answered(names, answers),
        },
{
    assert(names.push(name).drop_last() =~= names);
    assert(answers.push(answer).drop_last() =~= answers);
}

} // verus!
