//! Open enumerations: a fixed list of known wire strings plus a catch-all
//! variant that keeps any other string verbatim.
use vstd::prelude::*;

verus! {

/// Abstract value of an open enumeration: the index of a known variant in
/// declaration order, or the wire string of a custom one.
pub enum TokenModel {
    Known(nat),
    Custom(Seq<char>),
}

/// Parse from the known index `i` on: the first known wire string equal to
/// `s` wins; if none is equal, `s` becomes a custom value.
pub open spec fn parse_from(names: Seq<Seq<char>>, s: Seq<char>, i: nat) -> TokenModel
    decreases names.len() - i,
{
    if i >= names.len() {
        TokenModel::Custom(s)
    } else if names[i as int] == s {
        TokenModel::Known(i)
    } else {
        parse_from(names, s, i + 1)
    }
}

/// Parsing a wire string against the known wire strings `names`.
pub open spec fn parse_token(names: Seq<Seq<char>>, s: Seq<char>) -> TokenModel {
    parse_from(names, s, 0)
}

/// Serializing a value: the canonical string of a known variant, the kept
/// string of a custom one.
pub open spec fn serialize_token(names: Seq<Seq<char>>, m: TokenModel) -> Seq<char> {
    match m {
        TokenModel::Known(i) => names[i as int],
        TokenModel::Custom(s) => s,
    }
}

/// A value that can occur: a known index in range, or a custom string that is
/// none of the known ones.
pub open spec fn token_wf(names: Seq<Seq<char>>, m: TokenModel) -> bool {
    match m {
        TokenModel::Known(i) => i < names.len(),
        TokenModel::Custom(s) => !names.contains(s),
    }
}

/// No wire string is declared twice.
pub open spec fn names_distinct(names: Seq<Seq<char>>) -> bool {
    forall|i: int, j: int| 0 <= i < names.len() && 0 <= j < names.len() && i != j
        ==> names[i] != names[j]
}

proof fn lemma_parse_from_found(names: Seq<Seq<char>>, s: Seq<char>, i: nat, k: nat)
    requires
        names_distinct(names),
        i <= k < names.len(),
        names[k as int] == s,
    ensures
        parse_from(names, s, i) == TokenModel::Known(k),
    decreases k - i,
{
    if i < k {
        assert(names[i as int] != s);
        lemma_parse_from_found(names, s, i + 1, k);
    }
}

proof fn lemma_parse_from_missing(names: Seq<Seq<char>>, s: Seq<char>, i: nat)
    requires
        !names.contains(s),
    ensures
        parse_from(names, s, i) == TokenModel::Custom(s),
    decreases names.len() - i,
{
    if i < names.len() {
        assert(names[i as int] != s);
        lemma_parse_from_missing(names, s, i + 1);
    }
}

/// Parsing the serialization of any value that can occur gives that value
/// back, provided no wire string is declared twice.
pub proof fn lemma_parse_serialize(names: Seq<Seq<char>>, m: TokenModel)
    requires
        names_distinct(names),
        token_wf(names, m),
    ensures
        parse_token(names, serialize_token(names, m)) == m,
{
    match m {
        TokenModel::Known(i) => lemma_parse_from_found(names, names[i as int], 0, i),
        TokenModel::Custom(s) => lemma_parse_from_missing(names, s, 0),
    }
}

/// Serializing the parse of any string gives the string back; a string that is
/// no known wire string parses to a custom value, and every parse can occur.
pub proof fn lemma_serialize_parse(names: Seq<Seq<char>>, s: Seq<char>)
    ensures
        serialize_token(names, parse_token(names, s)) == s,
        token_wf(names, parse_token(names, s)),
        !names.contains(s) ==> parse_token(names, s) == TokenModel::Custom(s),
{
    lemma_serialize_parse_from(names, s, 0);
    if !names.contains(s) {
        lemma_parse_from_missing(names, s, 0);
    }
}

proof fn lemma_serialize_parse_from(names: Seq<Seq<char>>, s: Seq<char>, i: nat)
    requires
        forall|j: int| 0 <= j < i && j < names.len() ==> names[j] != s,
    ensures
        serialize_token(names, parse_from(names, s, i)) == s,
        token_wf(names, parse_from(names, s, i)),
    decreases names.len() - i,
{
    if i < names.len() {
        if names[i as int] != s {
            lemma_serialize_parse_from(names, s, i + 1);
        }
    } else {
        assert forall|j: int| 0 <= j < names.len() implies names[j] != s by {}
    }
}

/// The string held by a custom variant; only this crate can build one, so a
/// custom value never holds a known wire string.
#[derive(Clone, Debug)]
pub struct PrivOwnedStr(String);

impl View for PrivOwnedStr {
    type V = Seq<char>;

    closed spec fn view(&self) -> Seq<char> {
        self.0@
    }
}

impl PrivOwnedStr {
    pub(crate) fn new(s: &str) -> (r: PrivOwnedStr)
        ensures
            r@ == s@,
    {
        PrivOwnedStr(s.to_owned())
    }

    pub(crate) fn as_str(&self) -> (r: &str)
        ensures
            r@ == self@,
    {
        self.0.as_str()
    }
}

} // verus!
