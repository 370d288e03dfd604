//! What holds of every parse: spans lie inside the source, a whole parse
//! uses the source up, the keys of a map differ, and more.

use vstd::prelude::*;
use crate::compose::items_of;
use crate::error::{Fault};
use crate::grammar::{
    ListState, array_from, atom_value, item_at, item_from, leading_item, map_from, pair_from,
    whole_item,
};
use crate::item::no_entries;
use crate::lexeme::{Kind, Lexeme, lemma_lex_at, lemma_skip_end, lex_at, skip_end, token_at};
use crate::registry::{Env, find};
use crate::token::{lemma_token_shape};

verus! {

/// Whether the span of an error lies inside a source of `len` bytes.
pub open spec fn within(f: Fault, len: int) -> bool {
    0 <= f.start <= f.end <= len
}

/// Whether `l` is a lexeme of the source: it covers bytes of the source, and
/// unless it is unrecognized it is the token that starts at its first byte.
pub open spec fn is_lexeme(s: Seq<u8>, l: Lexeme) -> bool {
    &&& 0 <= l.start < l.end <= s.len()
    &&& l.kind != Kind::Unrecognized ==> token_at(s, l.start) == (l.kind, l.end)
}

/// What the lexer finds is a lexeme of the source, at or behind the position
/// from which it was looked for.
pub proof fn lemma_lexed(s: Seq<u8>, p: int)
    ensures
        lex_at(s, p) matches Some(l) ==> is_lexeme(s, l) && 0 <= p <= l.start,
{
    lemma_lex_at(s, p);
}

/// The error of a token that is no item by itself points inside the source.
pub proof fn lemma_atom_within(s: Seq<u8>, l: Lexeme, env: Env)
    requires
        is_lexeme(s, l),
    ensures
        atom_value(s, l, env) matches Err(f) ==> within(f, s.len() as int),
{
    if l.kind != Kind::Unrecognized {
        lemma_token_shape(s, l.start);
    }
}

/// An item ends inside the source, no earlier than its first token ends, and
/// an error in it points inside the source.
pub proof fn lemma_item_from_within(s: Seq<u8>, l: Lexeme, env: Env)
    requires
        is_lexeme(s, l),
    ensures
        match item_from(s, l, env) {
            Ok((_, end)) => l.end <= end <= s.len(),
            Err(f) => within(f, s.len() as int),
        },
    decreases s.len() - l.end, 2int,
{
    if l.kind == Kind::BracketOpen {
        lemma_array_within(s, l.end, env, Seq::empty(), ListState::Start);
    } else if l.kind == Kind::BraceOpen {
        lemma_map_within(s, l.end, env, Seq::empty(), no_entries(), ListState::Start);
    } else if l.kind == Kind::TagValue || l.kind == Kind::TagName {
        lemma_token_shape(s, l.start);
        lemma_item_at_within(s, l.end, env);
        match item_at(s, l.end, env) {
            Ok((_, end)) => {
                lemma_lex_at(s, end);
            },
            Err(_) => {},
        }
    } else {
        lemma_atom_within(s, l, env);
    }
}

/// As [`lemma_item_from_within`], for the item that starts at or after `p`.
pub proof fn lemma_item_at_within(s: Seq<u8>, p: int, env: Env)
    requires
        0 <= p,
    ensures
        match item_at(s, p, env) {
            Ok((_, end)) => p < end <= s.len(),
            Err(f) => within(f, s.len() as int),
        },
    decreases s.len() - p, 1int,
{
    lemma_lexed(s, p);
    match lex_at(s, p) {
        Some(l) => {
            lemma_item_from_within(s, l, env);
        },
        None => {},
    }
}

/// As [`lemma_item_from_within`], for the rest of an array.
pub proof fn lemma_array_within(
    s: Seq<u8>,
    p: int,
    env: Env,
    items: Seq<Seq<u8>>,
    state: ListState,
)
    requires
        0 <= p,
    ensures
        match array_from(s, p, env, items, state) {
            Ok((_, end)) => p < end <= s.len(),
            Err(f) => within(f, s.len() as int),
        },
    decreases s.len() - p, 1int,
{
    lemma_lexed(s, p);
    match lex_at(s, p) {
        None => {},
        Some(l) => {
            if l.kind == Kind::Unrecognized {
            } else if state == ListState::AfterItem {
                if l.kind == Kind::Comma {
                    lemma_array_within(s, l.end, env, items, ListState::AfterComma);
                }
            } else if l.kind == Kind::BracketClose && state == ListState::Start {
            } else {
                lemma_item_from_within(s, l, env);
                match item_from(s, l, env) {
                    Ok((item, end)) => {
                        lemma_array_within(s, end, env, items.push(item), ListState::AfterItem);
                    },
                    Err(_) => {},
                }
            }
        },
    }
}

/// As [`lemma_item_from_within`], for a pair of a map.
pub proof fn lemma_pair_within(s: Seq<u8>, l: Lexeme, env: Env, entries: Map<Seq<u8>, Seq<u8>>)
    requires
        is_lexeme(s, l),
    ensures
        match pair_from(s, l, env, entries) {
            Ok((_, _, end)) => l.end < end <= s.len(),
            Err(f) => within(f, s.len() as int),
        },
    decreases s.len() - l.end, 3int,
{
    lemma_item_from_within(s, l, env);
    match item_from(s, l, env) {
        Ok((key, key_end)) => {
            lemma_lexed(s, key_end);
            match lex_at(s, key_end) {
                Some(c) => {
                    if c.kind == Kind::Colon {
                        lemma_item_at_within(s, c.end, env);
                    }
                },
                None => {},
            }
        },
        Err(_) => {},
    }
}

/// As [`lemma_item_from_within`], for the rest of a map.
pub proof fn lemma_map_within(
    s: Seq<u8>,
    p: int,
    env: Env,
    keys: Seq<Seq<u8>>,
    entries: Map<Seq<u8>, Seq<u8>>,
    state: ListState,
)
    requires
        0 <= p,
    ensures
        match map_from(s, p, env, keys, entries, state) {
            Ok((_, _, end)) => p < end <= s.len(),
            Err(f) => within(f, s.len() as int),
        },
    decreases s.len() - p, 1int,
{
    lemma_lexed(s, p);
    match lex_at(s, p) {
        None => {},
        Some(l) => {
            if l.kind == Kind::Unrecognized {
            } else if l.kind == Kind::BraceClose && state != ListState::AfterComma {
            } else if l.kind == Kind::Comma && state == ListState::AfterItem {
                lemma_map_within(s, l.end, env, keys, entries, ListState::AfterComma);
            } else if state == ListState::AfterItem {
            } else {
                lemma_pair_within(s, l, env, entries);
                match pair_from(s, l, env, entries) {
                    Ok((key, value, end)) => {
                        lemma_map_within(
                            s,
                            end,
                            env,
                            keys.push(key),
                            entries.insert(key, value),
                            ListState::AfterItem,
                        );
                    },
                    Err(_) => {},
                }
            }
        },
    }
}

/// Every token that the lexer gives, and every character that it does not
/// recognize, covers bytes of the source: its span starts no earlier than
/// the position from which it was looked for and ends inside the source.
pub proof fn law_token_span_within(s: Seq<u8>, p: int)
    ensures
        lex_at(s, p) matches Some(l) ==> 0 <= p <= l.start < l.end <= s.len(),
{
    lemma_lex_at(s, p);
}

/// Every error of a parse points inside the source.
pub proof fn law_error_span_within(s: Seq<u8>, env: Env)
    ensures
        whole_item(s, env) matches Err(f) ==> within(f, s.len() as int),
        leading_item(s, env) matches Err(f) ==> within(f, s.len() as int),
{
    reveal(whole_item);
    reveal(leading_item);
    lemma_lexed(s, 0);
    match lex_at(s, 0) {
        Some(l) => {
            lemma_item_from_within(s, l, env);
            match item_from(s, l, env) {
                Ok((_, end)) => {
                    lemma_lex_at(s, end);
                },
                Err(_) => {},
            }
        },
        None => {},
    }
}

/// Where the parse of a whole source succeeds, nothing but white space and
/// comments stands behind the item: passing over them from the item's end
/// leads to the end of the source.
pub proof fn law_total_consumption(s: Seq<u8>, env: Env)
    requires
        whole_item(s, env) is Ok,
    ensures
        lex_at(s, 0) matches Some(l) && item_from(s, l, env) matches Ok((item, end))
            && whole_item(s, env) == Ok::<Seq<u8>, Fault>(item) && 0 <= end <= s.len()
            && skip_end(s, end) == s.len(),
{
    reveal(whole_item);
    lemma_lexed(s, 0);
    let l = lex_at(s, 0)->0;
    lemma_item_from_within(s, l, env);
    let end = item_from(s, l, env)->Ok_0.1;
    lemma_skip_end(s, end);
}

/// Whether two sets of registered names give every name the same number.
pub open spec fn agree(first: Env, second: Env) -> bool {
    &&& forall|name: Seq<u8>| find(first.tags, name) == find(second.tags, name)
    &&& forall|name: Seq<u8>|
        find(first.known_values, name) == find(second.known_values, name)
}

/// An item is the same under names that agree.
pub proof fn lemma_item_from_agree(s: Seq<u8>, l: Lexeme, first: Env, second: Env)
    requires
        agree(first, second),
    ensures
        item_from(s, l, first) == item_from(s, l, second),
    decreases s.len() - l.end, 2int,
{
    if l.kind == Kind::BracketOpen {
        lemma_array_agree(s, l.end, first, second, Seq::empty(), ListState::Start);
    } else if l.kind == Kind::BraceOpen {
        lemma_map_agree(s, l.end, first, second, Seq::empty(), no_entries(), ListState::Start);
    } else if l.kind == Kind::TagValue || l.kind == Kind::TagName {
        lemma_item_at_agree(s, l.end, first, second);
    }
}

/// As [`lemma_item_from_agree`], for the item that starts at or after `p`.
pub proof fn lemma_item_at_agree(s: Seq<u8>, p: int, first: Env, second: Env)
    requires
        agree(first, second),
    ensures
        item_at(s, p, first) == item_at(s, p, second),
    decreases s.len() - p, 1int,
{
    lemma_lex_at(s, p);
    match lex_at(s, p) {
        Some(l) => {
            lemma_item_from_agree(s, l, first, second);
        },
        None => {},
    }
}

/// As [`lemma_item_from_agree`], for the rest of an array.
pub proof fn lemma_array_agree(
    s: Seq<u8>,
    p: int,
    first: Env,
    second: Env,
    items: Seq<Seq<u8>>,
    state: ListState,
)
    requires
        agree(first, second),
    ensures
        array_from(s, p, first, items, state) == array_from(s, p, second, items, state),
    decreases s.len() - p, 1int,
{
    lemma_lex_at(s, p);
    match lex_at(s, p) {
        None => {},
        Some(l) => {
            if l.kind == Kind::Unrecognized {
            } else if state == ListState::AfterItem {
                if l.kind == Kind::Comma {
                    lemma_array_agree(s, l.end, first, second, items, ListState::AfterComma);
                }
            } else if l.kind == Kind::BracketClose && state == ListState::Start {
            } else {
                lemma_item_from_agree(s, l, first, second);
                match item_from(s, l, first) {
                    Ok((item, end)) => {
                        if p < end <= s.len() {
                            lemma_array_agree(
                                s,
                                end,
                                first,
                                second,
                                items.push(item),
                                ListState::AfterItem,
                            );
                        }
                    },
                    Err(_) => {},
                }
            }
        },
    }
}

/// As [`lemma_item_from_agree`], for a pair of a map.
pub proof fn lemma_pair_agree(
    s: Seq<u8>,
    l: Lexeme,
    first: Env,
    second: Env,
    entries: Map<Seq<u8>, Seq<u8>>,
)
    requires
        agree(first, second),
    ensures
        pair_from(s, l, first, entries) == pair_from(s, l, second, entries),
    decreases s.len() - l.end, 3int,
{
    lemma_item_from_agree(s, l, first, second);
    match item_from(s, l, first) {
        Ok((key, key_end)) => {
            if l.end <= key_end <= s.len() {
                lemma_lex_at(s, key_end);
                match lex_at(s, key_end) {
                    Some(c) => {
                        if c.kind == Kind::Colon {
                            lemma_item_at_agree(s, c.end, first, second);
                        }
                    },
                    None => {},
                }
            }
        },
        Err(_) => {},
    }
}

/// As [`lemma_item_from_agree`], for the rest of a map.
pub proof fn lemma_map_agree(
    s: Seq<u8>,
    p: int,
    first: Env,
    second: Env,
    keys: Seq<Seq<u8>>,
    entries: Map<Seq<u8>, Seq<u8>>,
    state: ListState,
)
    requires
        agree(first, second),
    ensures
        map_from(s, p, first, keys, entries, state) == map_from(
            s,
            p,
            second,
            keys,
            entries,
            state,
        ),
    decreases s.len() - p, 1int,
{
    lemma_lex_at(s, p);
    match lex_at(s, p) {
        None => {},
        Some(l) => {
            if l.kind == Kind::Unrecognized {
            } else if l.kind == Kind::BraceClose && state != ListState::AfterComma {
            } else if l.kind == Kind::Comma && state == ListState::AfterItem {
                lemma_map_agree(s, l.end, first, second, keys, entries, ListState::AfterComma);
            } else if state == ListState::AfterItem {
            } else {
                lemma_pair_agree(s, l, first, second, entries);
                match pair_from(s, l, first, entries) {
                    Ok((key, value, end)) => {
                        if p < end <= s.len() {
                            lemma_map_agree(
                                s,
                                end,
                                first,
                                second,
                                keys.push(key),
                                entries.insert(key, value),
                                ListState::AfterItem,
                            );
                        }
                    },
                    Err(_) => {},
                }
            }
        },
    }
}

/// A parse depends on the registered names only through the numbers that
/// they give to names: under names that agree, a source denotes the same.
pub proof fn law_same_names_same_parse(s: Seq<u8>, first: Env, second: Env)
    requires
        agree(first, second),
    ensures
        whole_item(s, first) == whole_item(s, second),
        leading_item(s, first) == leading_item(s, second),
{
    reveal(whole_item);
    reveal(leading_item);
    match lex_at(s, 0) {
        Some(l) => {
            lemma_item_from_agree(s, l, first, second);
        },
        None => {},
    }
}

/// A parse is a function of the source and of the registered names: two
/// outcomes for the same source and names are the same.
pub proof fn law_determinism(
    s: Seq<u8>,
    env: Env,
    first: Result<Seq<u8>, Fault>,
    second: Result<Seq<u8>, Fault>,
)
    requires
        first == whole_item(s, env),
        second == whole_item(s, env),
    ensures
        first == second,
{
}

/// Whether the keys, in the order of the source, are exactly the keys of the
/// entries, each once.
pub open spec fn keys_of(keys: Seq<Seq<u8>>, entries: Map<Seq<u8>, Seq<u8>>) -> bool {
    &&& keys.no_duplicates()
    &&& forall|k: Seq<u8>| entries.dom().contains(k) <==> keys.contains(k)
}

/// A key that is none of the keys so far can be added to them.
pub proof fn lemma_keys_of_push(
    keys: Seq<Seq<u8>>,
    entries: Map<Seq<u8>, Seq<u8>>,
    key: Seq<u8>,
    value: Seq<u8>,
)
    requires
        keys_of(keys, entries),
        !entries.dom().contains(key),
    ensures
        keys_of(keys.push(key), entries.insert(key, value)),
{
    let more = keys.push(key);
    assert forall|i: int, j: int| 0 <= i < more.len() && 0 <= j < more.len() && i != j implies more[i]
        != more[j] by {
        if i < keys.len() {
            assert(keys.contains(keys[i]));
        }
        if j < keys.len() {
            assert(keys.contains(keys[j]));
        }
    }
    assert forall|k: Seq<u8>| entries.insert(key, value).dom().contains(k) <==> more.contains(
        k,
    ) by {
        if more.contains(k) {
            let i = choose|i: int| 0 <= i < more.len() && more[i] == k;
            if i < keys.len() {
                assert(keys.contains(k));
            }
        }
        if entries.dom().contains(k) {
            let i = choose|i: int| 0 <= i < keys.len() && keys[i] == k;
            assert(more[i] == k);
        }
        if k == key {
            assert(more[keys.len() as int] == k);
        }
    }
}

/// No two keys of a map that was parsed are equal: the keys of its pairs, in
/// the order of the source, are pairwise different, and they are the keys
/// of the map's entries.
pub proof fn law_map_keys_differ(
    s: Seq<u8>,
    p: int,
    env: Env,
    keys: Seq<Seq<u8>>,
    entries: Map<Seq<u8>, Seq<u8>>,
    state: ListState,
)
    requires
        keys_of(keys, entries),
    ensures
        map_from(s, p, env, keys, entries, state) matches Ok((all, made, _)) ==> keys_of(
            all,
            made,
        ),
    decreases s.len() - p,
{
    lemma_lex_at(s, p);
    match lex_at(s, p) {
        None => {},
        Some(l) => {
            if l.kind == Kind::Unrecognized {
            } else if l.kind == Kind::BraceClose && state != ListState::AfterComma {
            } else if l.kind == Kind::Comma && state == ListState::AfterItem {
                law_map_keys_differ(s, l.end, env, keys, entries, ListState::AfterComma);
            } else if state == ListState::AfterItem {
            } else {
                match pair_from(s, l, env, entries) {
                    Ok((key, value, end)) => {
                        if p < end <= s.len() {
                            lemma_keys_of_push(keys, entries, key, value);
                            law_map_keys_differ(
                                s,
                                end,
                                env,
                                keys.push(key),
                                entries.insert(key, value),
                                ListState::AfterItem,
                            );
                        }
                    },
                    Err(_) => {},
                }
            }
        },
    }
}

/// The items of a composed array are what the texts denote, one for each
/// text and in their order.
pub proof fn law_composer_parity(fragments: Seq<Seq<u8>>, env: Env)
    ensures
        items_of(fragments, env) matches Ok(items) ==> items.len() == fragments.len() && forall|
            i: int,
        |
            0 <= i < fragments.len() ==> whole_item(#[trigger] fragments[i], env) == Ok::<
                Seq<u8>,
                Fault,
            >(items[i]),
    decreases fragments.len(),
{
    if fragments.len() > 0 {
        let front = fragments.drop_last();
        law_composer_parity(front, env);
        match items_of(fragments, env) {
            Ok(items) => {
                let before = items_of(front, env)->Ok_0;
                let last = whole_item(fragments.last(), env)->Ok_0;
                assert(items == before.push(last));
                assert forall|i: int| 0 <= i < fragments.len() implies whole_item(
                    #[trigger] fragments[i],
                    env,
                ) == Ok::<Seq<u8>, Fault>(items[i]) by {
                    if i < front.len() {
                        assert(fragments[i] == front[i]);
                        assert(items[i] == before[i]);
                    }
                }
            },
            Err(_) => {},
        }
    }
}

} // verus!
