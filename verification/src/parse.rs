//! Reading the error enum out of the derive input's token trees.
use vstd::prelude::*;
use crate::decl::{
    empty_var, fields_view, vars_view, Enum, EnumModel, FieldInfo, FieldModel, Var, VarModel,
};
use crate::text::{
    split, split_from, split_text, strip_quotes, strip_quotes_text, trim, trim_end, trim_start, trim_text,
};
use crate::token::{
    attr_named, ident_is, punct_is, push_token_text, text_is, tokens_text, Delimiter, Group,
    TokenTree,
};

verus! {

/// `i + 2`, or the end of a sequence of `n` tokens if that comes first:
/// the position after a token and the one that follows it.
pub open spec fn next2(i: int, n: int) -> int {
    if i + 2 <= n {
        i + 2
    } else {
        n
    }
}

/// The message template of an attribute body `[error("...")]`: the first
/// token inside its parentheses when that is a literal, quotes removed.
pub open spec fn error_message(g: Group) -> Option<Seq<char>> {
    if g.delimiter == Delimiter::Bracket && g.stream@.len() > 1 && ident_is(g.stream@[0], "error"@) {
        match g.stream@[1] {
            TokenTree::Group(args) => if args.delimiter == Delimiter::Parenthesis
                && args.stream@.len() > 0 {
                match args.stream@[0] {
                    TokenTree::Literal(lit) => Some(strip_quotes(lit@)),
                    _ => None,
                }
            } else {
                None
            },
            _ => None,
        }
    } else {
        None
    }
}

/// `v` after the attribute body `g`: its message becomes the one that
/// `g` gives, if `g` gives one.
pub open spec fn with_error_attr(v: VarModel, g: Group) -> VarModel {
    match error_message(g) {
        Some(m) => VarModel { name: v.name, fields: v.fields, error_arg: Some(m) },
        None => v,
    }
}

/// The fields of a tuple variant, from the pieces of its parenthesised text
/// between commas: each piece trimmed, empty ones dropped, the first field
/// marked `from` when the variant is.
pub open spec fn tuple_fields(pieces: Seq<Seq<char>>, from: bool) -> Seq<FieldModel>
    decreases pieces.len(),
{
    if pieces.len() == 0 {
        seq![]
    } else {
        let t = trim(pieces[0]);
        if t.len() == 0 {
            tuple_fields(pieces.drop_first(), from)
        } else {
            seq![FieldModel { name: None, ty: t, has_from: from }] + tuple_fields(
                pieces.drop_first(),
                false,
            )
        }
    }
}

/// The position of the first `,` at or after `j`, or the end.
pub open spec fn type_end(fs: Seq<TokenTree>, j: int) -> int
    decreases fs.len() - j,
{
    if j < 0 || j >= fs.len() {
        fs.len() as int
    } else if punct_is(fs[j], ',') {
        j
    } else {
        type_end(fs, j + 1)
    }
}

pub proof fn lemma_type_end(fs: Seq<TokenTree>, j: int)
    requires
        0 <= j <= fs.len(),
    ensures
        j <= type_end(fs, j) <= fs.len(),
        type_end(fs, j) < fs.len() ==> punct_is(fs[type_end(fs, j)], ','),
    decreases fs.len() - j,
{
    if j < fs.len() && !punct_is(fs[j], ',') {
        lemma_type_end(fs, j + 1);
    }
}

/// The fields of a struct-like variant, read from position `k` of the
/// tokens between its braces, `fhf` telling whether a `#[from]` is pending.
/// `name: Type,` gives a field; `#[from]` marks the next one; a name not
/// followed by `:` is skipped together with the token after it.
pub open spec fn struct_fields(fs: Seq<TokenTree>, k: int, fhf: bool) -> Seq<FieldModel>
    decreases fs.len() - k,
{
    if k < 0 || k >= fs.len() {
        seq![]
    } else {
        match fs[k] {
            TokenTree::Punct(c) => if c == '#' {
                let f2 = if k + 1 < fs.len() && attr_named(fs[k + 1], "from"@) {
                    true
                } else {
                    fhf
                };
                struct_fields(fs, next2(k, fs.len() as int), f2)
            } else {
                struct_fields(fs, k + 1, fhf)
            },
            TokenTree::Ident(f) => if k + 1 < fs.len() && punct_is(fs[k + 1], ':') {
                let e = type_end(fs, k + 2);
                proof {
                    lemma_type_end(fs, k + 2);
                }
                seq![
                    FieldModel {
                        name: Some(f@),
                        ty: trim(tokens_text(fs.subrange(k + 2, e))),
                        has_from: fhf,
                    },
                ] + struct_fields(
                    fs,
                    if e < fs.len() {
                        e + 1
                    } else {
                        fs.len() as int
                    },
                    false,
                )
            } else {
                struct_fields(fs, next2(k, fs.len() as int), fhf)
            },
            _ => struct_fields(fs, k + 1, fhf),
        }
    }
}

fn skip_two(k: usize, n: usize) -> (r: usize)
    requires
        k < n,
    ensures
        r == next2(k as int, n as int),
{
    if k + 1 < n {
        k + 2
    } else {
        n
    }
}

/// The variant state after the `#` at position `i` and the attribute body
/// after it: `#[from]` marks the variant's first field, `#[error("...")]`
/// sets its message, anything else changes nothing.
pub open spec fn after_attr(ts: Seq<TokenTree>, i: int, cur: VarModel, vhf: bool) -> (
    VarModel,
    bool,
) {
    if 0 <= i && i + 1 < ts.len() {
        match ts[i + 1] {
            TokenTree::Group(g) => if attr_named(ts[i + 1], "from"@) {
                (cur, true)
            } else if attr_named(ts[i + 1], "error"@) {
                (with_error_attr(cur, g), vhf)
            } else {
                (cur, vhf)
            },
            _ => (cur, vhf),
        }
    } else {
        (cur, vhf)
    }
}

/// The fields that follow the variant name at position `i`, and the
/// position after them: a parenthesised group gives tuple fields, a braced
/// group struct-like fields, anything else none.
pub open spec fn variant_fields(ts: Seq<TokenTree>, i: int, vhf: bool) -> (Seq<FieldModel>, int) {
    if 0 <= i && i + 1 < ts.len() {
        match ts[i + 1] {
            TokenTree::Group(g) => if g.delimiter == Delimiter::Parenthesis {
                (tuple_fields(split(g.stream_text@, ','), vhf), i + 2)
            } else if g.delimiter == Delimiter::Brace {
                (struct_fields(g.stream@, 0, false), i + 2)
            } else {
                (seq![], i + 1)
            },
            _ => (seq![], i + 1),
        }
    } else {
        (seq![], i + 1)
    }
}

/// `j`, or the position after it when a `,` stands there.
pub open spec fn skip_comma(ts: Seq<TokenTree>, j: int) -> int {
    if 0 <= j < ts.len() && punct_is(ts[j], ',') {
        j + 1
    } else {
        j
    }
}

/// The variants read from position `i` of the tokens between the enum's
/// braces, where `cur` is the variant that the attributes read so far
/// describe and `vhf` tells whether a `#[from]` is pending. Each identifier
/// that is not inside an attribute names a variant; the group after it, if
/// any, gives its fields.
pub open spec fn body_from(ts: Seq<TokenTree>, i: int, cur: VarModel, vhf: bool) -> Seq<VarModel>
    decreases ts.len() - i,
{
    if i < 0 || i >= ts.len() {
        seq![]
    } else {
        match ts[i] {
            TokenTree::Punct(c) => if c == '#' {
                let st = after_attr(ts, i, cur, vhf);
                body_from(ts, next2(i, ts.len() as int), st.0, st.1)
            } else {
                body_from(ts, i + 1, cur, vhf)
            },
            TokenTree::Ident(n) => {
                let vf = variant_fields(ts, i, vhf);
                let v = VarModel { name: n@, fields: cur.fields + vf.0, error_arg: cur.error_arg };
                seq![v] + body_from(ts, skip_comma(ts, vf.1), empty_var(), false)
            },
            _ => body_from(ts, i + 1, cur, vhf),
        }
    }
}

/// The variants of an enum body.
pub open spec fn enum_body(ts: Seq<TokenTree>) -> Seq<VarModel> {
    body_from(ts, 0, empty_var(), false)
}

/// The enum read from position `i` of the derive input: `pub` anywhere
/// before the body makes it public, the identifier after `enum` names it,
/// and the first braced group is its body.
pub open spec fn enum_from(ts: Seq<TokenTree>, i: int, is_pub: bool, name: Seq<char>) -> EnumModel
    decreases ts.len() - i,
{
    if i < 0 || i >= ts.len() {
        EnumModel { is_pub, name, vars: seq![] }
    } else {
        match ts[i] {
            TokenTree::Ident(n) => {
                let p2 = is_pub || n@ == "pub"@;
                if n@ == "enum"@ && i + 1 < ts.len() {
                    match ts[i + 1] {
                        TokenTree::Ident(m) => enum_from(ts, i + 2, p2, m@),
                        _ => enum_from(ts, i + 2, p2, name),
                    }
                } else {
                    enum_from(ts, i + 1, p2, name)
                }
            },
            TokenTree::Group(g) => if g.delimiter == Delimiter::Brace {
                EnumModel { is_pub, name, vars: enum_body(g.stream@) }
            } else {
                enum_from(ts, i + 1, is_pub, name)
            },
            _ => enum_from(ts, i + 1, is_pub, name),
        }
    }
}

/// The enum that the derive input `ts` declares.
pub open spec fn enum_decl(ts: Seq<TokenTree>) -> EnumModel {
    enum_from(ts, 0, false, seq![])
}

/// Law: the message of `#[error("m")]` is `m`, the literal's text between
/// its quotes, for any `m` that neither starts nor ends with a quote.
pub proof fn lemma_error_message_unquoted(g: Group, args: Group, lit: String, m: Seq<char>)
    requires
        g.delimiter == Delimiter::Bracket,
        g.stream@.len() > 1,
        ident_is(g.stream@[0], "error"@),
        g.stream@[1] == TokenTree::Group(args),
        args.delimiter == Delimiter::Parenthesis,
        args.stream@.len() > 0,
        args.stream@[0] == TokenTree::Literal(lit),
        lit@ == seq!['"'] + m + seq!['"'],
        m.len() > 0 ==> m[0] != '"' && m.last() != '"',
    ensures
        error_message(g) == Some(m),
{
    let q = seq!['"'] + m + seq!['"'];
    let inner = m + seq!['"'];
    assert(q[0] == '"');
    assert(q.drop_first() =~= inner);
    assert(trim_start(q, true) == trim_start(inner, true));
    assert(inner[inner.len() - 1] == '"');
    if m.len() == 0 {
        assert(inner.drop_first() =~= Seq::<char>::empty());
        assert(trim_start(inner, true) == trim_start(Seq::<char>::empty(), true));
        assert(trim_end(Seq::<char>::empty(), true) == Seq::<char>::empty());
    } else {
        assert(inner[0] == m[0]);
        assert(trim_start(inner, true) == inner);
        assert(inner.drop_last() =~= m);
        assert(trim_end(inner, true) == trim_end(m, true));
        assert(m[m.len() - 1] == m.last());
        assert(trim_end(m, true) == m);
    }
    assert(strip_quotes(q) == m);
}

/// All fields are named, or none is.
pub open spec fn uniform_fields(fs: Seq<FieldModel>) -> bool {
    ||| forall|i: int| 0 <= i < fs.len() ==> (#[trigger] fs[i]).name is Some
    ||| forall|i: int| 0 <= i < fs.len() ==> (#[trigger] fs[i]).name is None
}

proof fn lemma_tuple_fields_unnamed(pieces: Seq<Seq<char>>, from: bool)
    ensures
        forall|i: int|
            0 <= i < tuple_fields(pieces, from).len() ==> (#[trigger] tuple_fields(
                pieces,
                from,
            )[i]).name is None,
    decreases pieces.len(),
{
    if pieces.len() > 0 {
        lemma_tuple_fields_unnamed(pieces.drop_first(), from);
        lemma_tuple_fields_unnamed(pieces.drop_first(), false);
    }
}

proof fn lemma_struct_fields_named(fs: Seq<TokenTree>, k: int, fhf: bool)
    ensures
        forall|i: int|
            0 <= i < struct_fields(fs, k, fhf).len() ==> (#[trigger] struct_fields(
                fs,
                k,
                fhf,
            )[i]).name is Some,
    decreases fs.len() - k,
{
    if 0 <= k < fs.len() {
        match fs[k] {
            TokenTree::Punct(c) => {
                lemma_struct_fields_named(fs, next2(k, fs.len() as int), true);
                lemma_struct_fields_named(fs, next2(k, fs.len() as int), fhf);
                lemma_struct_fields_named(fs, k + 1, fhf);
            },
            TokenTree::Ident(f) => {
                if k + 1 < fs.len() && punct_is(fs[k + 1], ':') {
                    let e = type_end(fs, k + 2);
                    lemma_type_end(fs, k + 2);
                    let next = if e < fs.len() {
                        e + 1
                    } else {
                        fs.len() as int
                    };
                    lemma_struct_fields_named(fs, next, false);
                    let rest = struct_fields(fs, next, false);
                    let all = struct_fields(fs, k, fhf);
                    assert forall|i: int| 0 <= i < all.len() implies (#[trigger] all[i]).name is Some by {
                        if i > 0 {
                            assert(all[i] == rest[i - 1]);
                        }
                    }
                } else {
                    lemma_struct_fields_named(fs, next2(k, fs.len() as int), fhf);
                }
            },
            _ => {
                lemma_struct_fields_named(fs, k + 1, fhf);
            },
        }
    }
}

/// The fields that follow a variant name are all named or all unnamed.
proof fn lemma_variant_fields_uniform(ts: Seq<TokenTree>, i: int, vhf: bool)
    ensures
        uniform_fields(variant_fields(ts, i, vhf).0),
{
    if 0 <= i && i + 1 < ts.len() {
        match ts[i + 1] {
            TokenTree::Group(g) => {
                lemma_tuple_fields_unnamed(split(g.stream_text@, ','), vhf);
                lemma_struct_fields_named(g.stream@, 0, false);
            },
            _ => {},
        }
    }
}

proof fn lemma_body_uniform(ts: Seq<TokenTree>, i: int, cur: VarModel, vhf: bool)
    requires
        cur.fields.len() == 0,
    ensures
        forall|j: int|
            0 <= j < body_from(ts, i, cur, vhf).len() ==> uniform_fields(
                (#[trigger] body_from(ts, i, cur, vhf)[j]).fields,
            ),
    decreases ts.len() - i,
{
    if 0 <= i < ts.len() {
        match ts[i] {
            TokenTree::Punct(c) => {
                let st = after_attr(ts, i, cur, vhf);
                lemma_body_uniform(ts, next2(i, ts.len() as int), st.0, st.1);
                lemma_body_uniform(ts, i + 1, cur, vhf);
            },
            TokenTree::Ident(n) => {
                let vf = variant_fields(ts, i, vhf);
                lemma_variant_fields_uniform(ts, i, vhf);
                assert(cur.fields + vf.0 =~= vf.0);
                lemma_body_uniform(ts, skip_comma(ts, vf.1), empty_var(), false);
                let all = body_from(ts, i, cur, vhf);
                let rest = body_from(ts, skip_comma(ts, vf.1), empty_var(), false);
                assert forall|j: int| 0 <= j < all.len() implies uniform_fields(
                    (#[trigger] all[j]).fields,
                ) by {
                    if j > 0 {
                        assert(all[j] == rest[j - 1]);
                    }
                }
            },
            _ => {
                lemma_body_uniform(ts, i + 1, cur, vhf);
            },
        }
    }
}

/// Every variant that the parser reads from a derive input has only named
/// fields or only unnamed ones.
pub proof fn lemma_decl_fields_uniform(ts: Seq<TokenTree>)
    ensures
        forall|j: int|
            0 <= j < enum_decl(ts).vars.len() ==> uniform_fields(
                (#[trigger] enum_decl(ts).vars[j]).fields,
            ),
{
    lemma_enum_from_uniform(ts, 0, false, seq![]);
}

proof fn lemma_enum_from_uniform(ts: Seq<TokenTree>, i: int, is_pub: bool, name: Seq<char>)
    ensures
        forall|j: int|
            0 <= j < enum_from(ts, i, is_pub, name).vars.len() ==> uniform_fields(
                (#[trigger] enum_from(ts, i, is_pub, name).vars[j]).fields,
            ),
    decreases ts.len() - i,
{
    if 0 <= i < ts.len() {
        match ts[i] {
            TokenTree::Ident(n) => {
                let p2 = is_pub || n@ == "pub"@;
                if n@ == "enum"@ && i + 1 < ts.len() {
                    match ts[i + 1] {
                        TokenTree::Ident(m) => lemma_enum_from_uniform(ts, i + 2, p2, m@),
                        _ => lemma_enum_from_uniform(ts, i + 2, p2, name),
                    }
                } else {
                    lemma_enum_from_uniform(ts, i + 1, p2, name);
                }
            },
            TokenTree::Group(g) => {
                if g.delimiter == Delimiter::Brace {
                    lemma_body_uniform(g.stream@, 0, empty_var(), false);
                } else {
                    lemma_enum_from_uniform(ts, i + 1, is_pub, name);
                }
            },
            _ => lemma_enum_from_uniform(ts, i + 1, is_pub, name),
        }
    }
}

/// The positions of the identifiers that name variants, read from position
/// `i` of an enum body: the walk of `body_from`, which does not depend on the
/// attributes read along the way.
pub open spec fn variant_positions(ts: Seq<TokenTree>, i: int) -> Seq<int>
    decreases ts.len() - i,
{
    if i < 0 || i >= ts.len() {
        seq![]
    } else {
        match ts[i] {
            TokenTree::Punct(c) => if c == '#' {
                variant_positions(ts, next2(i, ts.len() as int))
            } else {
                variant_positions(ts, i + 1)
            },
            TokenTree::Ident(n) => seq![i] + variant_positions(
                ts,
                skip_comma(ts, variant_fields(ts, i, false).1),
            ),
            _ => variant_positions(ts, i + 1),
        }
    }
}

proof fn lemma_positions(ts: Seq<TokenTree>, i: int, cur: VarModel, vhf: bool)
    requires
        0 <= i,
    ensures
        variant_positions(ts, i).len() == body_from(ts, i, cur, vhf).len(),
        forall|j: int|
            0 <= j < variant_positions(ts, i).len() ==> i <= #[trigger] variant_positions(
                ts,
                i,
            )[j] < ts.len() && ident_is(
                ts[variant_positions(ts, i)[j]],
                body_from(ts, i, cur, vhf)[j].name,
            ),
        forall|j: int, k: int|
            0 <= j < k < variant_positions(ts, i).len() ==> variant_positions(ts, i)[j]
                < variant_positions(ts, i)[k],
        forall|p: int|
            i <= p < ts.len() && (#[trigger] ts[p] is Ident) && (p == i || !punct_is(
                ts[p - 1],
                '#',
            )) ==> variant_positions(ts, i).contains(p),
    decreases ts.len() - i,
{
    if i < ts.len() {
        assert(variant_fields(ts, i, false).1 == variant_fields(ts, i, vhf).1);
        match ts[i] {
            TokenTree::Punct(c) => {
                if c == '#' {
                    let st = after_attr(ts, i, cur, vhf);
                    lemma_positions(ts, next2(i, ts.len() as int), st.0, st.1);
                } else {
                    lemma_positions(ts, i + 1, cur, vhf);
                }
            },
            TokenTree::Ident(n) => {
                let vf = variant_fields(ts, i, vhf);
                let next = skip_comma(ts, vf.1);
                lemma_positions(ts, next, empty_var(), false);
                let pos = variant_positions(ts, i);
                let rest = variant_positions(ts, next);
                let body = body_from(ts, i, cur, vhf);
                let body_rest = body_from(ts, next, empty_var(), false);
                assert(pos == seq![i] + rest);
                assert forall|j: int| 0 <= j < pos.len() implies i <= #[trigger] pos[j] < ts.len()
                    && ident_is(ts[pos[j]], body[j].name) by {
                    if j > 0 {
                        assert(pos[j] == rest[j - 1]);
                        assert(body[j] == body_rest[j - 1]);
                    }
                }
                assert forall|j: int, k: int| 0 <= j < k < pos.len() implies pos[j] < pos[k] by {
                    assert(pos[k] == rest[k - 1]);
                    if j > 0 {
                        assert(pos[j] == rest[j - 1]);
                    }
                }
                assert forall|p: int|
                    i <= p < ts.len() && (#[trigger] ts[p] is Ident) && (p == i || !punct_is(
                        ts[p - 1],
                        '#',
                    )) implies pos.contains(p) by {
                    if p == i {
                        assert(pos[0] == i);
                    } else {
                        assert(p >= next);
                        let k = choose|k: int| 0 <= k < rest.len() && rest[k] == p;
                        assert(pos[k + 1] == p);
                    }
                }
            },
            _ => {
                lemma_positions(ts, i + 1, cur, vhf);
            },
        }
    }
}

/// Law: an enum body gives one variant per identifier, in source order.
/// Each variant comes from an identifier of the body with its name, at
/// increasing positions; and every identifier of the body that does not
/// directly follow a `#` gives one.
pub proof fn lemma_one_variant_per_identifier(ts: Seq<TokenTree>)
    ensures
        variant_positions(ts, 0).len() == enum_body(ts).len(),
        forall|j: int|
            0 <= j < enum_body(ts).len() ==> 0 <= #[trigger] variant_positions(ts, 0)[j] < ts.len()
                && ident_is(ts[variant_positions(ts, 0)[j]], enum_body(ts)[j].name),
        forall|j: int, k: int|
            0 <= j < k < enum_body(ts).len() ==> variant_positions(ts, 0)[j] < variant_positions(
                ts,
                0,
            )[k],
        forall|p: int|
            0 <= p < ts.len() && (#[trigger] ts[p] is Ident) && (p == 0 || !punct_is(
                ts[p - 1],
                '#',
            )) ==> variant_positions(ts, 0).contains(p),
{
    lemma_positions(ts, 0, empty_var(), false);
}

/// Law: the attributes read before a variant name go to that variant and no
/// other. The variant takes the message and fields that they give, and the
/// variants after it are the same whatever those attributes were.
pub proof fn lemma_marks_stay_with_their_variant(
    ts: Seq<TokenTree>,
    i: int,
    cur: VarModel,
    vhf: bool,
    cur2: VarModel,
    vhf2: bool,
)
    requires
        0 <= i < ts.len(),
        ts[i] is Ident,
    ensures
        body_from(ts, i, cur, vhf).len() > 0,
        body_from(ts, i, cur, vhf)[0].error_arg == cur.error_arg,
        body_from(ts, i, cur, vhf)[0].fields == cur.fields + variant_fields(ts, i, vhf).0,
        body_from(ts, i, cur, vhf).drop_first() == body_from(ts, i, cur2, vhf2).drop_first(),
{
    let vf = variant_fields(ts, i, vhf);
    let next = skip_comma(ts, vf.1);
    assert(variant_fields(ts, i, vhf2).1 == vf.1);
    assert(body_from(ts, i, cur, vhf).drop_first() =~= body_from(ts, next, empty_var(), false));
    assert(body_from(ts, i, cur2, vhf2).drop_first() =~= body_from(ts, next, empty_var(), false));
}


proof fn lemma_split_nonempty(s: Seq<char>, sep: char, cur: Seq<char>)
    ensures
        split_from(s, sep, cur).len() > 0,
    decreases s.len(),
{
    if s.len() > 0 {
        if s[0] == sep {
            lemma_split_nonempty(s.drop_first(), sep, seq![]);
        } else {
            lemma_split_nonempty(s.drop_first(), sep, cur.push(s[0]));
        }
    }
}

/// Law: a variant preceded by both `#[from]` and `#[error(..)]`, in either
/// order, gets the message of the `#[error]` attribute and has its first
/// tuple field marked `from`: reading an `#[error]` attribute leaves a
/// pending `#[from]` mark as it was.
pub proof fn lemma_from_and_error_in_either_order(
    ts: Seq<TokenTree>,
    i: int,
    cur: VarModel,
    vhf: bool,
    ge: Group,
    gt: Group,
)
    requires
        0 <= i,
        i + 5 < ts.len(),
        cur.fields.len() == 0,
        punct_is(ts[i], '#'),
        punct_is(ts[i + 2], '#'),
        (ts[i + 1] == TokenTree::Group(ge) && attr_named(ts[i + 3], "from"@)) || (ts[i + 3]
            == TokenTree::Group(ge) && attr_named(ts[i + 1], "from"@)),
        attr_named(TokenTree::Group(ge), "error"@),
        error_message(ge) is Some,
        ts[i + 4] is Ident,
        ts[i + 5] == TokenTree::Group(gt),
        gt.delimiter == Delimiter::Parenthesis,
        trim(split(gt.stream_text@, ',')[0]).len() > 0,
    ensures
        body_from(ts, i, cur, vhf).len() > 0,
        body_from(ts, i, cur, vhf)[0].error_arg == error_message(ge),
        body_from(ts, i, cur, vhf)[0].fields.len() > 0,
        body_from(ts, i, cur, vhf)[0].fields[0].has_from,
        body_from(ts, i, cur, vhf)[0].fields[0].name is None,
{
    reveal_strlit("error");
    reveal_strlit("from");
    assert("error"@.len() != "from"@.len());
    lemma_split_nonempty(gt.stream_text@, ',', seq![]);
    let st1 = after_attr(ts, i, cur, vhf);
    let st2 = after_attr(ts, i + 2, st1.0, st1.1);
    assert(next2(i, ts.len() as int) == i + 2);
    assert(next2(i + 2, ts.len() as int) == i + 4);
    assert(body_from(ts, i, cur, vhf) == body_from(ts, i + 2, st1.0, st1.1));
    assert(body_from(ts, i + 2, st1.0, st1.1) == body_from(ts, i + 4, st2.0, st2.1));
    if ts[i + 1] == TokenTree::Group(ge) {
        assert(!attr_named(ts[i + 1], "from"@));
        assert(st1.0 == with_error_attr(cur, ge));
        assert(st2.0 == st1.0);
    } else {
        assert(ts[i + 3] == TokenTree::Group(ge));
        assert(!attr_named(ts[i + 3], "from"@));
        assert(st1.0 == cur);
        assert(st2.0 == with_error_attr(cur, ge));
    }
    assert(st2.1);
    assert(st2.0.error_arg == error_message(ge));
    assert(st2.0.fields.len() == 0);
    let pieces = split(gt.stream_text@, ',');
    let vf = variant_fields(ts, i + 4, st2.1);
    assert(vf.0 == tuple_fields(pieces, true));
    assert(st2.0.fields + vf.0 =~= vf.0);
}

/// Law: the enum's variants are those of the first brace-delimited group of
/// the input, whatever other tokens and groups (attributes, `(crate)`)
/// stand before it, unless that group directly follows `enum`.
pub proof fn lemma_decl_reads_first_brace_group(ts: Seq<TokenTree>, b: int, g: Group)
    requires
        0 <= b < ts.len(),
        ts[b] == TokenTree::Group(g),
        g.delimiter == Delimiter::Brace,
        forall|j: int|
            0 <= j < b ==> !(#[trigger] ts[j] matches TokenTree::Group(h) && h.delimiter
                == Delimiter::Brace),
        b == 0 || !ident_is(ts[b - 1], "enum"@),
    ensures
        enum_decl(ts).vars == enum_body(g.stream@),
{
    lemma_enum_from_reaches(ts, b, g, 0, false, seq![]);
}

proof fn lemma_enum_from_reaches(
    ts: Seq<TokenTree>,
    b: int,
    g: Group,
    i: int,
    p: bool,
    n: Seq<char>,
)
    requires
        0 <= i <= b < ts.len(),
        ts[b] == TokenTree::Group(g),
        g.delimiter == Delimiter::Brace,
        forall|j: int|
            0 <= j < b ==> !(#[trigger] ts[j] matches TokenTree::Group(h) && h.delimiter
                == Delimiter::Brace),
        b == 0 || !ident_is(ts[b - 1], "enum"@),
    ensures
        enum_from(ts, i, p, n).vars == enum_body(g.stream@),
    decreases b - i,
{
    if i < b {
        assert(!(ts[i] matches TokenTree::Group(h) && h.delimiter == Delimiter::Brace));
        match ts[i] {
            TokenTree::Ident(w) => {
                let p2 = p || w@ == "pub"@;
                if w@ == "enum"@ && i + 1 < ts.len() {
                    assert(i + 1 != b);
                    match ts[i + 1] {
                        TokenTree::Ident(m) => lemma_enum_from_reaches(ts, b, g, i + 2, p2, m@),
                        _ => lemma_enum_from_reaches(ts, b, g, i + 2, p2, n),
                    }
                } else {
                    lemma_enum_from_reaches(ts, b, g, i + 1, p2, n);
                }
            },
            _ => lemma_enum_from_reaches(ts, b, g, i + 1, p, n),
        }
    }
}

/// Law: the enum's name is the identifier after `enum`, when `enum` occurs
/// once before the first brace-delimited group and is not directly before it.
pub proof fn lemma_decl_name_follows_enum(ts: Seq<TokenTree>, a: int, b: int)
    requires
        0 <= a,
        a + 1 < b < ts.len(),
        ident_is(ts[a], "enum"@),
        ts[a + 1] is Ident,
        ts[b] matches TokenTree::Group(g) && g.delimiter == Delimiter::Brace,
        forall|j: int| 0 <= j < b && j != a ==> !ident_is(#[trigger] ts[j], "enum"@),
        forall|j: int|
            0 <= j < b ==> !(#[trigger] ts[j] matches TokenTree::Group(h) && h.delimiter
                == Delimiter::Brace),
    ensures
        ident_is(ts[a + 1], enum_decl(ts).name),
{
    lemma_enum_name(ts, a, b, 0, false, seq![]);
}

proof fn lemma_enum_name(ts: Seq<TokenTree>, a: int, b: int, i: int, p: bool, n: Seq<char>)
    requires
        0 <= a,
        a + 1 < b < ts.len(),
        0 <= i <= b,
        i <= a || i >= a + 2,
        i >= a + 2 ==> ident_is(ts[a + 1], n),
        ident_is(ts[a], "enum"@),
        ts[a + 1] is Ident,
        ts[b] matches TokenTree::Group(g) && g.delimiter == Delimiter::Brace,
        forall|j: int| 0 <= j < b && j != a ==> !ident_is(#[trigger] ts[j], "enum"@),
        forall|j: int|
            0 <= j < b ==> !(#[trigger] ts[j] matches TokenTree::Group(h) && h.delimiter
                == Delimiter::Brace),
    ensures
        ident_is(ts[a + 1], enum_from(ts, i, p, n).name),
    decreases b - i,
{
    if i < b {
        assert(!(ts[i] matches TokenTree::Group(h) && h.delimiter == Delimiter::Brace));
        match ts[i] {
            TokenTree::Ident(w) => {
                let p2 = p || w@ == "pub"@;
                if w@ == "enum"@ && i + 1 < ts.len() {
                    assert(i == a) by {
                        if i != a {
                            assert(!ident_is(ts[i], "enum"@));
                        }
                    }
                    match ts[i + 1] {
                        TokenTree::Ident(m) => lemma_enum_name(ts, a, b, i + 2, p2, m@),
                        _ => {},
                    }
                } else {
                    if i == a {
                        assert(ident_is(ts[a], "enum"@));
                    }
                    lemma_enum_name(ts, a, b, i + 1, p2, n);
                }
            },
            _ => {
                lemma_enum_name(ts, a, b, i + 1, p, n);
            },
        }
    }
}

/// Law: a struct field preceded by an attribute is marked `from` exactly when
/// that attribute is `#[from]` or a `#[from]` was already pending; an
/// attribute with any other name, such as `#[doc = ..]`, leaves the mark as
/// it was.
pub proof fn lemma_field_marked_by_from_attr_only(fs: Seq<TokenTree>, k: int, fhf: bool)
    requires
        0 <= k,
        k + 3 < fs.len(),
        punct_is(fs[k], '#'),
        fs[k + 2] is Ident,
        punct_is(fs[k + 3], ':'),
    ensures
        struct_fields(fs, k, fhf).len() > 0,
        struct_fields(fs, k, fhf)[0].has_from == (fhf || attr_named(fs[k + 1], "from"@)),
        struct_fields(fs, k, fhf)[0].name is Some,
        ident_is(fs[k + 2], struct_fields(fs, k, fhf)[0].name->0),
{
    assert(next2(k, fs.len() as int) == k + 2);
    lemma_type_end(fs, k + 4);
    let f2 = if attr_named(fs[k + 1], "from"@) {
        true
    } else {
        fhf
    };
    assert(struct_fields(fs, k, fhf) == struct_fields(fs, k + 2, f2));
    let e = type_end(fs, k + 4);
    assert(struct_fields(fs, k + 2, f2)[0].has_from == f2);
}

/// Law: after a struct field the `from` mark is cleared: the field keeps the
/// mark that was pending, and the next field, not preceded by an attribute,
/// is unmarked.
pub proof fn lemma_field_mark_cleared_after_field(fs: Seq<TokenTree>, k: int, fhf: bool)
    requires
        0 <= k,
        k + 1 < fs.len(),
        fs[k] is Ident,
        punct_is(fs[k + 1], ':'),
        type_end(fs, k + 2) + 2 < fs.len(),
        fs[type_end(fs, k + 2) + 1] is Ident,
        punct_is(fs[type_end(fs, k + 2) + 2], ':'),
    ensures
        struct_fields(fs, k, fhf).len() > 1,
        struct_fields(fs, k, fhf)[0].has_from == fhf,
        !struct_fields(fs, k, fhf)[1].has_from,
{
    lemma_type_end(fs, k + 2);
    let e = type_end(fs, k + 2);
    lemma_type_end(fs, e + 3);
    let all = struct_fields(fs, k, fhf);
    let rest = struct_fields(fs, e + 1, false);
    assert(all == seq![
        FieldModel {
            name: Some(fs[k]->Ident_0@),
            ty: trim(tokens_text(fs.subrange(k + 2, e))),
            has_from: fhf,
        },
    ] + rest);
    assert(rest.len() > 0 && !rest[0].has_from);
    assert(all[1] == rest[0]);
}

/// Whether `t` is the punctuation character `c`.
pub fn is_punct(t: &TokenTree, c: char) -> (r: bool)
    ensures
        r == punct_is(*t, c),
{
    match t {
        TokenTree::Punct(p) => *p == c,
        _ => false,
    }
}

/// Whether `t` is the identifier `word`.
pub fn is_ident(t: &TokenTree, word: &str) -> (r: bool)
    ensures
        r == ident_is(*t, word@),
{
    match t {
        TokenTree::Ident(n) => text_is(n, word),
        _ => false,
    }
}

/// Whether `t` is an attribute body whose first token is the identifier `word`.
pub fn is_attr_named(t: &TokenTree, word: &str) -> (r: bool)
    ensures
        r == attr_named(*t, word@),
{
    match t {
        TokenTree::Group(g) => {
            g.delimiter == Delimiter::Bracket && g.stream.len() > 0 && is_ident(&g.stream[0], word)
        },
        _ => false,
    }
}

/// Reads an attribute body `[error("...")]` into `var`: its message becomes
/// the literal's text without the surrounding quotes. Any other attribute
/// body leaves `var` unchanged.
pub fn parse_attrs(group: &Group, var: &mut Var)
    ensures
        final(var)@ == with_error_attr(old(var)@, *group),
{
    if group.delimiter == Delimiter::Bracket && group.stream.len() > 1 && is_ident(
        &group.stream[0],
        "error",
    ) {
        match &group.stream[1] {
            TokenTree::Group(args) => {
                if args.delimiter == Delimiter::Parenthesis && args.stream.len() > 0 {
                    match &args.stream[0] {
                        TokenTree::Literal(lit) => {
                            var.error_arg = Some(strip_quotes_text(lit.as_str()));
                        },
                        _ => {},
                    }
                }
            },
            _ => {},
        }
    }
}

/// The fields of a tuple variant, from its parenthesised text.
pub fn parse_tuple_fields(text: &String, has_from: bool) -> (r: Vec<FieldInfo>)
    ensures
        fields_view(r@) == tuple_fields(split(text@, ','), has_from),
{
    let pieces = split_text(text.as_str(), ',');
    let ghost pv = pieces@.map_values(|p: String| p@);
    let mut out: Vec<FieldInfo> = Vec::new();
    let mut from = has_from;
    let mut j: usize = 0;
    assert(pv.skip(0) =~= pv);
    assert(fields_view(out@) =~= Seq::<FieldModel>::empty());
    while j < pieces.len()
        invariant
            pv == pieces@.map_values(|p: String| p@),
            pv == split(text@, ','),
            j <= pieces.len(),
            fields_view(out@) + tuple_fields(pv.skip(j as int), from) == tuple_fields(
                pv,
                has_from,
            ),
        decreases pieces.len() - j,
    {
        let ghost rest = pv.skip(j as int);
        assert(rest[0] == pieces@[j as int]@);
        assert(rest.drop_first() =~= pv.skip(j + 1));
        let clean = trim_text(pieces[j].as_str());
        if !clean.as_str().is_empty() {
            let ghost before = out@;
            let f = FieldInfo { name: None, ty: clean, has_from: from };
            out.push(f);
            assert(fields_view(out@) =~= fields_view(before).push(f@));
            assert(fields_view(out@) + tuple_fields(pv.skip(j + 1), false) =~= fields_view(before)
                + tuple_fields(rest, from));
            from = false;
        }
        j = j + 1;
    }
    assert(pv.skip(j as int) =~= Seq::<Seq<char>>::empty());
    assert(fields_view(out@) + Seq::<FieldModel>::empty() =~= fields_view(out@));
    out
}

/// The fields of a struct-like variant, from the tokens between its braces.
pub fn parse_struct_fields(fs: &Vec<TokenTree>) -> (r: Vec<FieldInfo>)
    ensures
        fields_view(r@) == struct_fields(fs@, 0, false),
{
    let n = fs.len();
    let mut out: Vec<FieldInfo> = Vec::new();
    let mut k: usize = 0;
    let mut fhf = false;
    assert(fields_view(out@) =~= Seq::<FieldModel>::empty());
    while k < n
        invariant
            n == fs.len(),
            k <= n,
            fields_view(out@) + struct_fields(fs@, k as int, fhf) == struct_fields(fs@, 0, false),
        decreases n - k,
    {
        match &fs[k] {
            TokenTree::Punct(c) => {
                if *c == '#' {
                    if k + 1 < n && is_attr_named(&fs[k + 1], "from") {
                        fhf = true;
                    }
                    k = skip_two(k, n);
                } else {
                    k = k + 1;
                }
            },
            TokenTree::Ident(f) => {
                if k + 1 < n && is_punct(&fs[k + 1], ':') {
                    let mut ty = String::new();
                    let mut j = k + 2;
                    proof {
                        lemma_type_end(fs@, k + 2);
                        assert(fs@.subrange(k + 2, j as int) =~= Seq::<TokenTree>::empty());
                    }
                    while j < n && !is_punct(&fs[j], ',')
                        invariant
                            n == fs.len(),
                            k + 2 <= j <= n,
                            ty@ == tokens_text(fs@.subrange(k + 2, j as int)),
                            type_end(fs@, k + 2) == type_end(fs@, j as int),
                        decreases n - j,
                    {
                        push_token_text(&mut ty, &fs[j]);
                        assert(fs@.subrange(k + 2, j + 1).drop_last() =~= fs@.subrange(
                            k + 2,
                            j as int,
                        ));
                        j = j + 1;
                    }
                    let ghost before = out@;
                    let field = FieldInfo {
                        name: Some(f.clone()),
                        ty: trim_text(ty.as_str()),
                        has_from: fhf,
                    };
                    out.push(field);
                    assert(fields_view(out@) =~= fields_view(before).push(field@));
                    let ghost k0 = k;
                    fhf = false;
                    k = if j < n {
                        j + 1
                    } else {
                        n
                    };
                    assert(fields_view(out@) + struct_fields(fs@, k as int, fhf) =~= fields_view(
                        before,
                    ) + struct_fields(fs@, k0 as int, field@.has_from));
                } else {
                    k = skip_two(k, n);
                }
            },
            _ => {
                k = k + 1;
            },
        }
    }
    assert(fields_view(out@) + Seq::<FieldModel>::empty() =~= fields_view(out@));
    out
}

/// Reads the variants of an enum from the tokens between its braces.
pub fn parse_enum_body(stream: &Vec<TokenTree>) -> (r: Vec<Var>)
    ensures
        vars_view(r@) == enum_body(stream@),
{
    let n = stream.len();
    let mut parsed_vars: Vec<Var> = Vec::new();
    let mut current_var = Var::default();
    let mut variant_has_from = false;
    let mut i: usize = 0;
    assert(vars_view(parsed_vars@) =~= Seq::<VarModel>::empty());
    while i < n
        invariant
            n == stream.len(),
            i <= n,
            vars_view(parsed_vars@) + body_from(stream@, i as int, current_var@, variant_has_from)
                == enum_body(stream@),
        decreases n - i,
    {
        match &stream[i] {
            TokenTree::Punct(c) => {
                if *c == '#' {
                    if i + 1 < n {
                        match &stream[i + 1] {
                            TokenTree::Group(g) => {
                                if is_attr_named(&stream[i + 1], "from") {
                                    variant_has_from = true;
                                } else if is_attr_named(&stream[i + 1], "error") {
                                    parse_attrs(g, &mut current_var);
                                }
                            },
                            _ => {},
                        }
                    }
                    i = skip_two(i, n);
                } else {
                    i = i + 1;
                }
            },
            TokenTree::Ident(name) => {
                let ghost i0 = i as int;
                let ghost cur0 = current_var@;
                let ghost vhf0 = variant_has_from;
                current_var.name = name.clone();
                let mut j = i + 1;
                if i + 1 < n {
                    match &stream[i + 1] {
                        TokenTree::Group(g) => {
                            if g.delimiter == Delimiter::Parenthesis {
                                let mut fs = parse_tuple_fields(&g.stream_text, variant_has_from);
                                let ghost before = current_var.fields@;
                                let ghost added = fs@;
                                current_var.fields.append(&mut fs);
                                assert(fields_view(current_var.fields@) =~= fields_view(before)
                                    + fields_view(added));
                                j = i + 2;
                            } else if g.delimiter == Delimiter::Brace {
                                let mut fs = parse_struct_fields(&g.stream);
                                let ghost before = current_var.fields@;
                                let ghost added = fs@;
                                current_var.fields.append(&mut fs);
                                assert(fields_view(current_var.fields@) =~= fields_view(before)
                                    + fields_view(added));
                                j = i + 2;
                            }
                        },
                        _ => {},
                    }
                }
                let ghost vf = variant_fields(stream@, i0, vhf0);
                assert(current_var@ == VarModel {
                    name: name@,
                    fields: cur0.fields + vf.0,
                    error_arg: cur0.error_arg,
                });
                assert(j == vf.1);
                let ghost before = parsed_vars@;
                let ghost pushed = current_var@;
                parsed_vars.push(current_var);
                current_var = Var::default();
                variant_has_from = false;
                assert(vars_view(parsed_vars@) =~= vars_view(before).push(pushed));
                if j < n && is_punct(&stream[j], ',') {
                    j = j + 1;
                }
                i = j;
                assert(vars_view(parsed_vars@) + body_from(
                    stream@,
                    i as int,
                    current_var@,
                    variant_has_from,
                ) =~= vars_view(before) + body_from(stream@, i0, cur0, vhf0));
            },
            _ => {
                i = i + 1;
            },
        }
    }
    assert(vars_view(parsed_vars@) + Seq::<VarModel>::empty() =~= vars_view(parsed_vars@));
    parsed_vars
}

/// Reads the enum that a derive input declares: whether it is `pub`, its
/// name, and the variants of its first braced group.
pub fn parse_enum(tokens: &Vec<TokenTree>) -> (r: Enum)
    ensures
        r@ == enum_decl(tokens@),
{
    let n = tokens.len();
    let mut is_pub = false;
    let mut name = String::new();
    let mut i: usize = 0;
    while i < n
        invariant
            n == tokens.len(),
            i <= n,
            enum_from(tokens@, i as int, is_pub, name@) == enum_decl(tokens@),
        decreases n - i,
    {
        match &tokens[i] {
            TokenTree::Ident(word) => {
                if text_is(word, "pub") {
                    is_pub = true;
                }
                if text_is(word, "enum") && i + 1 < n {
                    match &tokens[i + 1] {
                        TokenTree::Ident(m) => {
                            name = m.clone();
                        },
                        _ => {},
                    }
                    i = i + 2;
                } else {
                    i = i + 1;
                }
            },
            TokenTree::Group(g) => {
                if g.delimiter == Delimiter::Brace {
                    let vars = parse_enum_body(&g.stream);
                    return Enum { is_pub, name, vars };
                }
                i = i + 1;
            },
            _ => {
                i = i + 1;
            },
        }
    }
    Enum { is_pub, name, vars: Vec::new() }
}

} // verus!
