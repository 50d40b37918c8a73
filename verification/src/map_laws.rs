//! What holds of the maps keyed by strings, and of the values made of them.
use crate::scan::{SpecialKind, Token, TokenSpec};
use crate::snippet::{ProcessedSnippet, RepetitionInfo};
use crate::strmap::{has_entry, lemma_entry, StrMap};
use vstd::prelude::*;

verus! {

/// A new map has no keys.
pub proof fn law_new_map<V: View>(r: StrMap<V>, key: Seq<char>)
    requires
        call_ensures(StrMap::<V>::new, (), r),
    ensures
        !r@.contains_key(key),
{
}

/// The entries of a map are its keys, each once, with their values.
pub proof fn law_entries<V: View>(map: &StrMap<V>, r: &Vec<(String, V)>)
    requires
        call_ensures(StrMap::<V>::entries, (map,), r),
    ensures
        forall|i: int|
            0 <= i < r@.len() ==> map@.contains_key((#[trigger] r@[i]).0@) && map@[r@[i].0@]
                == r@[i].1@,
        forall|key: Seq<char>| #[trigger]
            map@.contains_key(key) ==> exists|i: int|
                0 <= i < r@.len() && (#[trigger] r@[i]).0@ == key,
        forall|i: int, j: int|
            0 <= i < j < r@.len() ==> (#[trigger] r@[i]).0@ != (#[trigger] r@[j]).0@,
{
    assert forall|i: int| 0 <= i < r@.len() implies map@.contains_key((#[trigger] r@[i]).0@)
        && map@[r@[i].0@] == r@[i].1@ by {
        lemma_entry(r@, i);
    }
    assert forall|key: Seq<char>| #[trigger] map@.contains_key(key) implies exists|i: int|
        0 <= i < r@.len() && (#[trigger] r@[i]).0@ == key by {
        assert(has_entry(r@, key));
    }
}

/// The value under a key, if there is one.
pub proof fn law_get<V: View>(map: &StrMap<V>, key: &str, r: Option<&V>)
    requires
        call_ensures(StrMap::<V>::get, (map, key), r),
    ensures
        map@.contains_key(key@) ==> r is Some && r->0@ == map@[key@],
        !map@.contains_key(key@) ==> r is None,
{
}

/// Whether there is a value under a key.
pub proof fn law_contains_key<V: View>(map: &StrMap<V>, key: &str, r: bool)
    requires
        call_ensures(StrMap::<V>::contains_key, (map, key), r),
    ensures
        r <==> map@.dom().contains(key@),
{
}

/// A map is empty where no key is in it.
pub proof fn law_is_empty<V: View>(map: &StrMap<V>, r: bool)
    requires
        call_ensures(StrMap::<V>::is_empty, (map,), r),
    ensures
        r <==> forall|key: Seq<char>| !#[trigger] map@.contains_key(key),
{
    if forall|key: Seq<char>| !#[trigger] map@.contains_key(key) {
        assert(map@ =~= Map::<Seq<char>, V::V>::empty());
    }
}

/// The length of a map is the number of its keys.
pub proof fn law_len<V: View>(map: &StrMap<V>, r: usize)
    requires
        call_ensures(StrMap::<V>::len, (map,), r),
    ensures
        r == map@.dom().len(),
        r == 0 <==> forall|key: Seq<char>| !#[trigger] map@.contains_key(key),
{
    if r == 0 {
        assert(map@.dom() =~= Set::empty());
        assert forall|key: Seq<char>| !#[trigger] map@.contains_key(key) by {
            assert(!map@.dom().contains(key));
        }
    }
    if forall|key: Seq<char>| !#[trigger] map@.contains_key(key) {
        assert(map@.dom() =~= Set::empty());
    }
}

/// A copy of a map holds what the map holds.
pub proof fn law_clone(map: &StrMap<String>, r: StrMap<String>)
    requires
        call_ensures(StrMap::<String>::clone, (map,), r),
    ensures
        r@ == map@,
{
}

/// The model of a repetition holds its operator, its kind and its sentinels in order.
pub proof fn law_repetition_view(info: RepetitionInfo)
    ensures
        info@.op == info.op@,
        info@.kind == info.kind,
        info@.sub_sentinels.len() == info.sub_sentinels@.len(),
        forall|i: int|
            0 <= i < info.sub_sentinels@.len() ==> info@.sub_sentinels[i] == (
            #[trigger] info.sub_sentinels@[i])@,
{
}

/// The model of a snippet holds its text and its maps.
pub proof fn law_snippet_view(snippet: ProcessedSnippet)
    ensures
        snippet@.pattern_text == snippet.pattern_text@,
        snippet@.placeholders == snippet.placeholders@,
        snippet@.repetitions == snippet.repetitions@,
        snippet@.specials == snippet.specials@,
        snippet@.type_constraints == snippet.type_constraints@,
{
}

/// The model of a special kind is the kind.
pub proof fn law_special_view(kind: SpecialKind)
    ensures
        kind@ == kind,
{
}

/// The model of a piece of a snippet holds what the piece holds.
pub proof fn law_token_view(token: Token)
    ensures
        token matches Token::Verbatim(text) ==> token@ == TokenSpec::Verbatim(text@),
        token matches Token::Group { names, op } ==> token@ is Group && token@->op == op
            && token@->names.len() == names@.len() && forall|i: int|
            0 <= i < names@.len() ==> token@->names[i] == (#[trigger] names@[i])@,
        token matches Token::Span { name } ==> token@ == (TokenSpec::Span { name: name@ }),
        token matches Token::Special { kind } ==> token@ == (TokenSpec::Special { kind }),
        token matches Token::Hole { name, constraint } ==> token@ == (TokenSpec::Hole {
            name: name@,
            constraint: constraint@,
        }),
{
}

} // verus!
