//! The composer: builds an array or a map from texts that each hold one item.

use vstd::prelude::*;
use vstd::string::StringSliceAdditionalSpecFns;
use dcbor::CBOR;
use crate::error::{Error as ParseError, Fault};
use crate::grammar::whole_item;
use crate::item::{
    ItemMap, array_encoding, array_item, encoding_of, encodings, map_encoding, map_entries,
    map_insert, map_item, map_new, no_entries,
};
use crate::parse::{denotes, outcome, parse_dcbor_item, parse_dcbor_item_with};
use crate::registry::{Env, Registry};

verus! {

/// An error of the composer.
#[derive(Debug, PartialEq)]
pub enum Error {
    /// A map was asked for from an odd number of texts.
    OddMapLength,
    /// A text did not parse.
    ParseError(ParseError),
}

/// An error of the composer as the grammar states it.
pub enum ComposeFault {
    OddMapLength,
    Parse(Fault),
}

impl View for Error {
    type V = ComposeFault;

    open spec fn view(&self) -> ComposeFault {
        match *self {
            Error::OddMapLength => ComposeFault::OddMapLength,
            Error::ParseError(e) => ComposeFault::Parse(e@),
        }
    }
}

/// The bytes of each text.
pub open spec fn texts(array: Seq<&str>) -> Seq<Seq<u8>> {
    array.map_values(|t: &str| t.spec_bytes())
}

/// The items that the texts denote, in order; the error of the first text
/// that fails.
pub open spec fn items_of(fragments: Seq<Seq<u8>>, env: Env) -> Result<Seq<Seq<u8>>, Fault>
    decreases fragments.len(),
{
    if fragments.len() == 0 {
        Ok(Seq::empty())
    } else {
        match items_of(fragments.drop_last(), env) {
            Err(f) => Err(f),
            Ok(items) => match whole_item(fragments.last(), env) {
                Ok(item) => Ok(items.push(item)),
                Err(f) => Err(f),
            },
        }
    }
}

/// The entries that the first `2 * pairs` texts denote, each two a key and
/// its value; the error of the first text that fails. A later pair takes
/// the place of an earlier one with an equal key.
#[verifier::opaque]
pub open spec fn entries_of(fragments: Seq<Seq<u8>>, pairs: nat, env: Env) -> Result<
    Map<Seq<u8>, Seq<u8>>,
    Fault,
>
    decreases pairs,
{
    if pairs == 0 {
        Ok(no_entries())
    } else {
        match entries_of(fragments, (pairs - 1) as nat, env) {
            Err(f) => Err(f),
            Ok(entries) => match whole_item(fragments[2 * pairs - 2], env) {
                Err(f) => Err(f),
                Ok(key) => match whole_item(fragments[2 * pairs - 1], env) {
                    Err(f) => Err(f),
                    Ok(value) => Ok(entries.insert(key, value)),
                },
            },
        }
    }
}

/// The array that the texts compose, or the error.
pub open spec fn composed_array(fragments: Seq<Seq<u8>>, env: Env) -> Result<
    Seq<u8>,
    ComposeFault,
> {
    match items_of(fragments, env) {
        Ok(items) => Ok(array_encoding(items)),
        Err(f) => Err(ComposeFault::Parse(f)),
    }
}

/// The map that the texts compose, or the error. An odd number of texts is
/// an error whatever they hold.
pub open spec fn composed_map(fragments: Seq<Seq<u8>>, env: Env) -> Result<
    Seq<u8>,
    ComposeFault,
> {
    if fragments.len() % 2 != 0 {
        Err(ComposeFault::OddMapLength)
    } else {
        match entries_of(fragments, fragments.len() / 2, env) {
            Ok(entries) => Ok(map_encoding(entries)),
            Err(f) => Err(ComposeFault::Parse(f)),
        }
    }
}

/// The outcome of composing, with the item taken by its encoding and the
/// error by its view.
pub open spec fn composed(r: Result<CBOR, Error>) -> Result<Seq<u8>, ComposeFault> {
    match r {
        Ok(item) => Ok(encoding_of(item)),
        Err(e) => Err(e@),
    }
}

/// Composes an array from texts that each hold one item, with names taken
/// from `names`. The first text that fails to parse gives the error, with
/// its span in that text.
pub fn compose_dcbor_array_with(array: &[&str], names: &Registry) -> (r: Result<CBOR, Error>)
    ensures
        composed(r) == composed_array(texts(array@), names@),
{
    let ghost fragments = texts(array@);
    let mut items: Vec<CBOR> = Vec::new();
    let mut i: usize = 0;
    assert(fragments.take(0) =~= Seq::<Seq<u8>>::empty());
    assert(encodings(items@) =~= Seq::<Seq<u8>>::empty());
    while i < array.len()
        invariant
            i <= array.len(),
            fragments == texts(array@),
            items_of(fragments.take(i as int), names@) == Ok::<Seq<Seq<u8>>, Fault>(
                encodings(items@),
            ),
        decreases array.len() - i,
    {
        proof {
            assert(fragments.take(i + 1).drop_last() =~= fragments.take(i as int));
            assert(fragments.take(i + 1).last() == array@[i as int].spec_bytes());
            if i + 1 < array.len() {
                lemma_items_of_prefix(fragments, i + 1, names@);
            } else {
                assert(fragments.take(i + 1) =~= fragments);
            }
        }
        match parse_dcbor_item_with(array[i], names) {
            Err(e) => {
                return Err(Error::ParseError(e));
            },
            Ok(item) => {
                proof {
                    assert(encodings(items@.push(item)) =~= encodings(items@).push(
                        encoding_of(item),
                    ));
                }
                items.push(item);
            },
        }
        i += 1;
    }
    assert(fragments.take(i as int) =~= fragments);
    Ok(array_item(items))
}

/// Where a stretch of texts at the front fails, the whole fails in the same
/// way.
pub proof fn lemma_items_of_prefix(fragments: Seq<Seq<u8>>, n: int, env: Env)
    requires
        0 <= n <= fragments.len(),
    ensures
        items_of(fragments.take(n), env) matches Err(f) ==> items_of(fragments, env) == Err::<
            Seq<Seq<u8>>,
            Fault,
        >(f),
    decreases fragments.len() - n,
{
    if n == fragments.len() {
        assert(fragments.take(n) =~= fragments);
    } else {
        assert(fragments.take(n + 1).drop_last() =~= fragments.take(n));
        lemma_items_of_prefix(fragments, n + 1, env);
    }
}

/// Where a stretch of pairs at the front fails, the whole fails in the same
/// way.
pub proof fn lemma_entries_of_prefix(fragments: Seq<Seq<u8>>, k: nat, n: nat, env: Env)
    requires
        k <= n,
    ensures
        entries_of(fragments, k, env) matches Err(f) ==> entries_of(fragments, n, env) == Err::<
            Map<Seq<u8>, Seq<u8>>,
            Fault,
        >(f),
    decreases n - k,
{
    if k < n {
        lemma_entries_of_step(fragments, k, env);
        lemma_entries_of_prefix(fragments, k + 1, n, env);
    }
}

/// No pairs give no entries.
pub proof fn lemma_entries_of_none(fragments: Seq<Seq<u8>>, env: Env)
    ensures
        entries_of(fragments, 0, env) == Ok::<Map<Seq<u8>, Seq<u8>>, Fault>(no_entries()),
{
    reveal(entries_of);
}

/// What one more pair adds to the entries of the pairs before it.
pub open spec fn entries_with(
    before: Result<Map<Seq<u8>, Seq<u8>>, Fault>,
    key: Result<Seq<u8>, Fault>,
    value: Result<Seq<u8>, Fault>,
) -> Result<Map<Seq<u8>, Seq<u8>>, Fault> {
    match before {
        Err(f) => Err(f),
        Ok(entries) => match key {
            Err(f) => Err(f),
            Ok(k) => match value {
                Err(f) => Err(f),
                Ok(v) => Ok(entries.insert(k, v)),
            },
        },
    }
}

/// The entries of `k + 1` pairs are those of `k` pairs with the next pair
/// added.
pub proof fn lemma_entries_of_step(fragments: Seq<Seq<u8>>, k: nat, env: Env)
    ensures
        entries_of(fragments, (k + 1) as nat, env) == entries_with(
            entries_of(fragments, k, env),
            whole_item(fragments[2 * k as int], env),
            whole_item(fragments[2 * k as int + 1], env),
        ),
{
    reveal(entries_of);
    assert(((k + 1) - 1) as nat == k);
    assert(2 * (k + 1) - 2 == 2 * k);
    assert(2 * (k + 1) - 1 == 2 * k + 1);
}

/// Composes a map from texts that each hold one item, each two a key and its
/// value, with names taken from `names`. An odd number of texts is an
/// error. A later pair takes the place of an earlier one with an equal key.
pub fn compose_dcbor_map_with(array: &[&str], names: &Registry) -> (r: Result<CBOR, Error>)
    ensures
        composed(r) == composed_map(texts(array@), names@),
{
    if array.len() % 2 != 0 {
        return Err(Error::OddMapLength);
    }
    let ghost fragments = texts(array@);
    let pairs: usize = array.len() / 2;
    let mut map: ItemMap = map_new();
    let mut k: usize = 0;
    proof {
        lemma_entries_of_none(fragments, names@);
    }
    while k < pairs
        invariant
            k <= pairs,
            2 * pairs == array.len(),
            fragments == texts(array@),
            entries_of(fragments, k as nat, names@) == Ok::<Map<Seq<u8>, Seq<u8>>, Fault>(
                map_entries(map),
            ),
        decreases pairs - k,
    {
        let at_key: usize = 2 * k;
        let at_value: usize = at_key + 1;
        proof {
            lemma_entries_of_step(fragments, k as nat, names@);
            lemma_entries_of_prefix(fragments, (k + 1) as nat, pairs as nat, names@);
            assert(fragments[at_key as int] == array@[at_key as int].spec_bytes());
            assert(fragments[at_value as int] == array@[at_value as int].spec_bytes());
        }
        let key = match parse_dcbor_item_with(array[at_key], names) {
            Err(e) => {
                return Err(Error::ParseError(e));
            },
            Ok(item) => item,
        };
        let value = match parse_dcbor_item_with(array[at_value], names) {
            Err(e) => {
                return Err(Error::ParseError(e));
            },
            Ok(item) => item,
        };
        map_insert(&mut map, key, value);
        k += 1;
    }
    Ok(map_item(map))
}

/// Whether each of the first `n` texts denotes the item at its place in
/// `items`, under some set of registered names.
pub open spec fn each_denotes(fragments: Seq<Seq<u8>>, items: Seq<Seq<u8>>, n: int) -> bool {
    forall|i: int| 0 <= i < n ==> denotes(#[trigger] fragments[i], Ok(items[i]))
}

/// Whether the text denotes an item under some set of registered names.
pub open spec fn parses(s: Seq<u8>) -> bool {
    exists|item: Seq<u8>| denotes(s, Ok(item))
}

/// Whether `f` is the error of a text before which every text parses.
pub open spec fn fails_first(fragments: Seq<Seq<u8>>, f: Fault) -> bool {
    exists|i: int|
        0 <= i < fragments.len() && denotes(#[trigger] fragments[i], Err(f)) && forall|j: int|
            0 <= j < i ==> parses(#[trigger] fragments[j])
}

/// The entries that the first `2 * pairs` items make, each two a key and its
/// value. A later pair takes the place of an earlier one with an equal key.
pub open spec fn entries_from(items: Seq<Seq<u8>>, pairs: nat) -> Map<Seq<u8>, Seq<u8>>
    decreases pairs,
{
    if pairs == 0 {
        no_entries()
    } else {
        entries_from(items, (pairs - 1) as nat).insert(
            items[2 * pairs - 2],
            items[2 * pairs - 1],
        )
    }
}

/// The entries of the first pairs do not depend on the items behind them.
pub proof fn lemma_entries_from_more(items: Seq<Seq<u8>>, more: Seq<Seq<u8>>, pairs: nat)
    requires
        2 * pairs <= items.len(),
    ensures
        entries_from(items + more, pairs) == entries_from(items, pairs),
    decreases pairs,
{
    if pairs > 0 {
        lemma_entries_from_more(items, more, (pairs - 1) as nat);
    }
}

/// Composes an array from texts that each hold one item. Names are looked
/// up, text by text, as in [`parse_dcbor_item`]. On success the array holds
/// one item for each text, in order, and each is what its text denotes. An
/// error is that of a text before which every text parsed.
pub fn compose_dcbor_array(array: &[&str]) -> (r: Result<CBOR, Error>)
    ensures
        match r {
            Ok(item) => exists|items: Seq<Seq<u8>>|
                items.len() == array@.len() && each_denotes(
                    texts(array@),
                    items,
                    array@.len() as int,
                ) && encoding_of(item) == array_encoding(items),
            Err(e) => e@ matches ComposeFault::Parse(f) && fails_first(texts(array@), f),
        },
{
    let ghost fragments = texts(array@);
    let mut items: Vec<CBOR> = Vec::new();
    let mut i: usize = 0;
    while i < array.len()
        invariant
            i <= array.len(),
            fragments == texts(array@),
            items@.len() == i,
            each_denotes(fragments, encodings(items@), i as int),
        decreases array.len() - i,
    {
        assert(fragments[i as int] == array@[i as int].spec_bytes());
        match parse_dcbor_item(array[i]) {
            Err(e) => {
                proof {
                    lemma_fails_first(fragments, encodings(items@), i as int, e@);
                }
                return Err(Error::ParseError(e));
            },
            Ok(item) => {
                proof {
                    let before = encodings(items@);
                    let after = encodings(items@.push(item));
                    assert(after =~= before.push(encoding_of(item)));
                    assert forall|j: int| 0 <= j < i + 1 implies denotes(
                        #[trigger] fragments[j],
                        Ok(after[j]),
                    ) by {
                        if j < i {
                            assert(after[j] == before[j]);
                        }
                    }
                }
                items.push(item);
            },
        }
        i += 1;
    }
    let ghost encoded = encodings(items@);
    let item = array_item(items);
    assert(encoded.len() == array@.len());
    Ok(item)
}

/// Where each of the first `i` texts denotes an item and the next one
/// fails, that failure is the first.
pub proof fn lemma_fails_first(fragments: Seq<Seq<u8>>, items: Seq<Seq<u8>>, i: int, f: Fault)
    requires
        0 <= i < fragments.len(),
        each_denotes(fragments, items, i),
        denotes(fragments[i], Err(f)),
    ensures
        fails_first(fragments, f),
{
    assert forall|j: int| 0 <= j < i implies parses(#[trigger] fragments[j]) by {
        assert(denotes(fragments[j], Ok(items[j])));
    }
}

/// Where each text denotes the item at its place and the next text denotes
/// `item`, so it is with `item` added.
pub proof fn lemma_each_denotes_push(
    fragments: Seq<Seq<u8>>,
    items: Seq<Seq<u8>>,
    item: Seq<u8>,
)
    requires
        items.len() < fragments.len(),
        each_denotes(fragments, items, items.len() as int),
        denotes(fragments[items.len() as int], Ok(item)),
    ensures
        each_denotes(fragments, items.push(item), items.len() as int + 1),
{
    let more = items.push(item);
    assert forall|j: int| 0 <= j < items.len() + 1 implies denotes(
        #[trigger] fragments[j],
        Ok(more[j]),
    ) by {
        if j < items.len() {
            assert(more[j] == items[j]);
        }
    }
}

/// One more pair behind full pairs adds its entry to theirs.
pub proof fn lemma_entries_from_pair(items: Seq<Seq<u8>>, key: Seq<u8>, value: Seq<u8>)
    requires
        items.len() % 2 == 0,
    ensures
        entries_from(items.push(key).push(value), (items.len() / 2 + 1) as nat) == entries_from(
            items,
            items.len() / 2,
        ).insert(key, value),
{
    let pairs = items.len() / 2;
    let more = seq![key, value];
    let next = items.push(key).push(value);
    assert(next =~= items + more);
    lemma_entries_from_more(items, more, pairs);
    assert(next[2 * pairs as int] == key);
    assert(next[2 * pairs as int + 1] == value);
    assert(((pairs + 1) - 1) as nat == pairs);
}

/// Composes a map from texts that each hold one item, each two a key and its
/// value. Names are looked up, text by text, as in [`parse_dcbor_item`]. An
/// odd number of texts is an error, and only that gives this error. On
/// success the map holds the entries that the items make which the texts
/// denote; a later pair takes the place of an earlier one with an equal key.
/// Another error is that of a text before which every text parsed.
pub fn compose_dcbor_map(array: &[&str]) -> (r: Result<CBOR, Error>)
    ensures
        array@.len() % 2 != 0 <==> r matches Err(Error::OddMapLength),
        r matches Err(Error::ParseError(e)) ==> fails_first(texts(array@), e@),
        r matches Ok(item) ==> exists|items: Seq<Seq<u8>>|
            items.len() == array@.len() && each_denotes(
                texts(array@),
                items,
                array@.len() as int,
            ) && encoding_of(item) == map_encoding(
                entries_from(items, (array@.len() / 2) as nat),
            ),
{
    if array.len() % 2 != 0 {
        return Err(Error::OddMapLength);
    }
    let ghost fragments = texts(array@);
    let pairs: usize = array.len() / 2;
    let mut map: ItemMap = map_new();
    let mut k: usize = 0;
    let ghost mut items: Seq<Seq<u8>> = Seq::empty();
    while k < pairs
        invariant
            k <= pairs,
            2 * pairs == array.len(),
            fragments == texts(array@),
            items.len() == 2 * k,
            each_denotes(fragments, items, 2 * k),
            map_entries(map) == entries_from(items, k as nat),
        decreases pairs - k,
    {
        let at_key: usize = 2 * k;
        let at_value: usize = at_key + 1;
        assert(fragments[at_key as int] == array@[at_key as int].spec_bytes());
        assert(fragments[at_value as int] == array@[at_value as int].spec_bytes());
        let key = match parse_dcbor_item(array[at_key]) {
            Err(e) => {
                proof {
                    lemma_fails_first(fragments, items, at_key as int, e@);
                }
                return Err(Error::ParseError(e));
            },
            Ok(item) => item,
        };
        let ghost with_key = items.push(encoding_of(key));
        proof {
            lemma_each_denotes_push(fragments, items, encoding_of(key));
        }
        let value = match parse_dcbor_item(array[at_value]) {
            Err(e) => {
                proof {
                    lemma_fails_first(fragments, with_key, at_value as int, e@);
                }
                return Err(Error::ParseError(e));
            },
            Ok(item) => item,
        };
        proof {
            lemma_each_denotes_push(fragments, with_key, encoding_of(value));
            lemma_entries_from_pair(items, encoding_of(key), encoding_of(value));
            items = with_key.push(encoding_of(value));
        }
        map_insert(&mut map, key, value);
        k += 1;
    }
    Ok(map_item(map))
}

} // verus!
