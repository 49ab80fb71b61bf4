//! A bad value stays where it is: the proof that a variable block parses
//! whatever its values look like, each value by its own text alone.

use vstd::prelude::*;
use crate::canonical::{
    join, lemma_passes_ordinary, lemma_passes_pair, lemma_split_join, lemma_trim_edges,
    lemma_trim_not_empty, ordinary, passes,
};
use crate::literal::{lit_of, split_top, COMMA, EQUALS};
use crate::model::Lit;
use crate::prefabs::{
    var_of, var_seps, vars_of, vars_upto, ParseError, CLOSE_BRACE, LINE_FEED, OPEN_BRACE,
    SEMICOLON,
};
use crate::scan::{in_class, run_end, scan, trim, Class};

verus! {

/// Whether `t` can name a variable: letters, digits and underscores, and at
/// least one of them.
pub open spec fn is_name(t: Seq<u8>) -> bool {
    t.len() > 0 && forall|k: int| 0 <= k < t.len() ==> in_class(Class::Ident, #[trigger] t[k])
}

/// A run takes all of a text whose bytes are all of its class.
pub proof fn lemma_run_all(s: Seq<u8>, i: int, class: Class)
    requires
        0 <= i <= s.len(),
        forall|k: int| i <= k < s.len() ==> in_class(class, #[trigger] s[k]),
    ensures
        run_end(s, i, class) == s.len(),
    decreases s.len() - i,
{
    if i < s.len() {
        lemma_run_all(s, i + 1, class);
    }
}

/// The bytes that set variables apart are the semicolon, the comma and the
/// line feed, and no others.
pub proof fn lemma_var_seps(c: u8)
    ensures
        var_seps().contains(c) <==> (c == SEMICOLON || c == COMMA || c == LINE_FEED),
{
    if var_seps().contains(c) {
        let k = choose|k: int| 0 <= k < var_seps().len() && var_seps()[k] == c;
    }
    assert(var_seps()[0] == SEMICOLON);
    assert(var_seps()[1] == COMMA);
    assert(var_seps()[2] == LINE_FEED);
}

/// A name, an equals sign and any text at all make a variable: the text
/// cannot fail it. The value of the variable is the literal that the text
/// stands for, which is a fallback value when the text matches no grammar.
pub proof fn law_any_value_makes_a_variable(name: Seq<u8>, value: Seq<u8>)
    requires
        is_name(name),
    ensures
        var_of(name + seq![EQUALS] + value) == Ok::<(Seq<u8>, Lit), ParseError>(
            (name, lit_of(value)),
        ),
        trim(name + seq![EQUALS] + value).len() > 0,
{
    let piece = name + seq![EQUALS] + value;
    let sign = seq![EQUALS];
    let rest = sign + value;
    assert forall|k: int| 0 <= k < name.len() implies ordinary(#[trigger] name[k], 0, sign) by {
        assert(in_class(Class::Ident, name[k]));
        if sign.contains(name[k]) {
            let j = choose|j: int| 0 <= j < sign.len() && sign[j] == name[k];
        }
    }
    lemma_passes_ordinary(name, sign, 0);
    assert(piece =~= name + rest);
    assert(scan(name + rest, 0, 0, 0, sign) == name.len() + scan(rest, 0, 0, 0, sign));
    assert(rest[0] == EQUALS);
    assert(sign[0] == EQUALS);
    assert(scan(rest, 0, 0, 0, sign) == 0);
    assert(piece.subrange(0, name.len() as int) =~= name);
    assert(piece.subrange(name.len() as int + 1, piece.len() as int) =~= value);
    assert(in_class(Class::Ident, name[0]));
    assert(in_class(Class::Ident, name[name.len() - 1]));
    lemma_trim_edges(name);
    lemma_run_all(name, 0, Class::Ident);
    assert(piece[0] == name[0]);
    lemma_trim_not_empty(piece);
}

/// The texts of variables: each a name, an equals sign and a value text.
pub open spec fn var_texts(names: Seq<Seq<u8>>, values: Seq<Seq<u8>>) -> Seq<Seq<u8>> {
    Seq::new(names.len(), |i: int| names[i] + seq![EQUALS] + values[i])
}

/// The first `k` variables that names and value texts make, each value by
/// its own text.
pub open spec fn vars_made(names: Seq<Seq<u8>>, values: Seq<Seq<u8>>, k: int) -> Seq<
    (Seq<u8>, Lit),
> {
    Seq::new(k as nat, |i: int| (names[i], lit_of(values[i])))
}

/// Pieces that are variables give these variables, one by one.
pub proof fn lemma_vars_of_pieces(names: Seq<Seq<u8>>, values: Seq<Seq<u8>>, k: int)
    requires
        names.len() == values.len(),
        0 <= k <= names.len(),
        forall|i: int| 0 <= i < names.len() ==> is_name(#[trigger] names[i]),
    ensures
        vars_upto(var_texts(names, values), k) == Ok::<Seq<(Seq<u8>, Lit)>, ParseError>(
            vars_made(names, values, k),
        ),
    decreases k,
{
    if k <= 0 {
        assert(vars_made(names, values, k) =~= Seq::<(Seq<u8>, Lit)>::empty());
    } else {
        lemma_vars_of_pieces(names, values, k - 1);
        assert(is_name(names[k - 1]));
        law_any_value_makes_a_variable(names[k - 1], values[k - 1]);
        assert(vars_made(names, values, k) =~= vars_made(names, values, k - 1).push(
            (names[k - 1], lit_of(values[k - 1])),
        ));
    }
}

/// A bad value is contained. A block of variables set apart by semicolons
/// parses whatever its value texts are, as long as the scanner walks
/// through each of them; and the value of each variable is the literal of
/// its own text alone: a text that matches no grammar gives one fallback
/// value, in its place, and changes no other variable.
pub proof fn law_bad_values_are_contained(names: Seq<Seq<u8>>, values: Seq<Seq<u8>>)
    requires
        names.len() == values.len(),
        forall|i: int| 0 <= i < names.len() ==> is_name(#[trigger] names[i]),
        forall|i: int| 0 <= i < values.len() ==> passes(#[trigger] values[i], var_seps(), 0, 0),
    ensures
        vars_of(
            seq![OPEN_BRACE] + join(var_texts(names, values), SEMICOLON, 0) + seq![CLOSE_BRACE],
        ) == Ok::<Seq<(Seq<u8>, Lit)>, ParseError>(
            vars_made(names, values, names.len() as int),
        ),
{
    let seps = var_seps();
    let pieces = var_texts(names, values);
    let body = join(pieces, SEMICOLON, 0);
    let raw = seq![OPEN_BRACE] + body + seq![CLOSE_BRACE];
    assert(raw.subrange(1, raw.len() - 1) =~= body);
    assert(raw[0] == OPEN_BRACE);
    assert(raw[raw.len() - 1] == CLOSE_BRACE);
    if names.len() == 0 {
        let nothing = Seq::<u8>::empty();
        assert(body =~= nothing);
        assert(scan(body, 0, 0, 0, seps) == 0);
        assert(split_top(body, 0, seps) =~= seq![body.subrange(0, 0)]);
        let found = split_top(body, 0, seps);
        assert(found[0] =~= nothing);
        assert(run_end(nothing, 0, Class::Space) == 0);
        assert(trim(found[0]).len() == 0);
        assert(vars_upto(found, 0) == Ok::<Seq<(Seq<u8>, Lit)>, ParseError>(Seq::empty()));
        assert(vars_made(names, values, 0) =~= Seq::<(Seq<u8>, Lit)>::empty());
    } else {
        lemma_var_seps(EQUALS);
        lemma_var_seps(SEMICOLON);
        assert forall|i: int| 0 <= i < pieces.len() implies passes(
            #[trigger] pieces[i],
            seps,
            0,
            0,
        ) by {
            let name = names[i];
            assert(is_name(name));
            assert forall|k: int| 0 <= k < name.len() implies ordinary(
                #[trigger] name[k],
                0,
                seps,
            ) by {
                assert(in_class(Class::Ident, name[k]));
                lemma_var_seps(name[k]);
            }
            lemma_passes_ordinary(name, seps, 0);
            assert(passes(values[i], seps, 0, 0));
            lemma_passes_pair(name, values[i], seps, 0);
        }
        lemma_split_join(pieces, SEMICOLON, 0, seps);
        assert(split_top(body, 0, seps) =~= pieces);
        lemma_vars_of_pieces(names, values, names.len() as int);
    }
}

} // verus!
