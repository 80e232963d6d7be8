//! Writing the `Display`, `Error` and `From` impls of an error enum as
//! source text.
use vstd::prelude::*;
use crate::decl::{fields_view, vars_view, Enum, EnumModel, FieldInfo, FieldModel, Var, VarModel};
use crate::parse::{enum_decl, lemma_decl_fields_uniform, parse_enum, uniform_fields};
use crate::text::{decimal, push_decimal};
use crate::token::TokenTree;

verus! {

/// A field's name, or nothing for a tuple field.
pub open spec fn field_name(f: FieldModel) -> Seq<char> {
    match f.name {
        Some(n) => n,
        None => seq![],
    }
}

/// The template that a variant displays: its `#[error]` message, or else
/// its own name.
pub open spec fn message_of(v: VarModel) -> Seq<char> {
    match v.error_arg {
        Some(m) => m,
        None => v.name,
    }
}

/// `a, b, ` for the fields `a` and `b`.
pub open spec fn struct_pattern(fs: Seq<FieldModel>) -> Seq<char>
    decreases fs.len(),
{
    if fs.len() == 0 {
        seq![]
    } else {
        struct_pattern(fs.drop_last()) + field_name(fs.last()) + ", "@
    }
}

/// `, a, b` for the fields `a` and `b`.
pub open spec fn struct_args(fs: Seq<FieldModel>) -> Seq<char>
    decreases fs.len(),
{
    if fs.len() == 0 {
        seq![]
    } else {
        struct_args(fs.drop_last()) + ", "@ + field_name(fs.last())
    }
}

/// `_v0, _v1, ` for two tuple fields.
pub open spec fn tuple_pattern(n: nat) -> Seq<char>
    decreases n,
{
    if n == 0 {
        seq![]
    } else {
        tuple_pattern((n - 1) as nat) + "_v"@ + decimal((n - 1) as nat) + ", "@
    }
}

/// `, _v0, _v1` for two tuple fields.
pub open spec fn tuple_args(n: nat) -> Seq<char>
    decreases n,
{
    if n == 0 {
        seq![]
    } else {
        tuple_args((n - 1) as nat) + ", _v"@ + decimal((n - 1) as nat)
    }
}

/// The match arm of `Display::fmt` for variant `v` of enum `e`: it binds
/// the fields in order and writes the variant's template with them.
pub open spec fn display_arm(e: Seq<char>, v: VarModel) -> Seq<char> {
    if v.fields.len() == 0 {
        e + "::"@ + v.name + " => write!(f, \""@ + message_of(v) + "\"),\n"@
    } else if v.fields[0].name is Some {
        e + "::"@ + v.name + " { "@ + struct_pattern(v.fields) + " } => write!(f, \""@
            + message_of(v) + "\" "@ + struct_args(v.fields) + "),\n"@
    } else {
        e + "::"@ + v.name + " ( "@ + tuple_pattern(v.fields.len()) + " ) => write!(f, \""@
            + message_of(v) + "\" "@ + tuple_args(v.fields.len()) + "),\n"@
    }
}

/// The position of the first field at or after `k` whose `from` mark is `flag`.
pub open spec fn first_with_from(fs: Seq<FieldModel>, k: int, flag: bool) -> Option<int>
    decreases fs.len() - k,
{
    if k < 0 || k >= fs.len() {
        None
    } else if fs[k].has_from == flag {
        Some(k)
    } else {
        first_with_from(fs, k + 1, flag)
    }
}

/// The `From` impl that variant `v` of enum `e` gets: from the type of its
/// first `#[from]` field. A struct-like variant gets one when it also has a
/// field without the mark (which is set to the variant's name); a tuple
/// variant gets one when that is its only field. No other variant gets one.
pub open spec fn from_impl(e: Seq<char>, v: VarModel) -> Seq<char> {
    match first_with_from(v.fields, 0, true) {
        None => seq![],
        Some(k) => {
            let ff = v.fields[k];
            match ff.name {
                Some(fname) => match first_with_from(v.fields, 0, false) {
                    None => seq![],
                    Some(s) => "impl std::convert::From<"@ + ff.ty + "> for "@ + e
                        + " {\n                            fn from(err: "@ + ff.ty
                        + ") -> Self {\n                                "@ + e + "::"@ + v.name
                        + " {\n                                    "@ + field_name(v.fields[s])
                        + ": \""@ + v.name + "\",\n                                    "@ + fname
                        + ": err,\n                                }\n                            }\n                        }\n"@,
                },
                None => if v.fields.len() == 1 {
                    "impl std::convert::From<"@ + ff.ty + "> for "@ + e
                        + " {\n                            fn from(err: "@ + ff.ty
                        + ") -> Self {\n                                "@ + e + "::"@ + v.name
                        + "(err)\n                            }\n                        }\n"@
                } else {
                    seq![]
                },
            }
        },
    }
}

/// The variants whose text the generator can write: when the first field
/// is named, all are; when the first `#[from]` field is named, so is the
/// first field without the mark.
pub open spec fn var_renders(v: VarModel) -> bool {
    &&& (v.fields.len() > 0 && v.fields[0].name is Some) ==> forall|i: int|
        0 <= i < v.fields.len() ==> (#[trigger] v.fields[i]).name is Some
    &&& match first_with_from(v.fields, 0, true) {
        Some(k) => v.fields[k].name is Some ==> match first_with_from(v.fields, 0, false) {
            Some(s) => v.fields[s].name is Some,
            None => true,
        },
        None => true,
    }
}

pub open spec fn enum_renders(m: EnumModel) -> bool {
    forall|i: int| 0 <= i < m.vars.len() ==> var_renders(#[trigger] m.vars[i])
}

/// The display arms of all variants, in order.
pub open spec fn display_arms(e: Seq<char>, vs: Seq<VarModel>) -> Seq<char>
    decreases vs.len(),
{
    if vs.len() == 0 {
        seq![]
    } else {
        display_arms(e, vs.drop_last()) + display_arm(e, vs.last())
    }
}

/// The `From` impls of all variants, in order.
pub open spec fn from_impls(e: Seq<char>, vs: Seq<VarModel>) -> Seq<char>
    decreases vs.len(),
{
    if vs.len() == 0 {
        seq![]
    } else {
        from_impls(e, vs.drop_last()) + from_impl(e, vs.last())
    }
}

/// The whole generated text: the `Display` impl, an empty `Error` impl and
/// the `From` impls.
pub open spec fn generated(m: EnumModel) -> Seq<char> {
    "\n        impl std::fmt::Display for "@ + m.name
        + " {\n            fn fmt(&self, f: &mut std::fmt::Formatter<'_>) -> std::fmt::Result {\n                match self {\n                    "@
        + display_arms(m.name, m.vars)
        + "\n                }\n            }\n        }\n        impl std::error::Error for "@ + m.name
        + " {}\n        "@ + from_impls(m.name, m.vars) + "\n        "@
}

/// A variant whose fields are all named, or all unnamed, can be written.
pub proof fn lemma_uniform_renders(v: VarModel)
    requires
        uniform_fields(v.fields),
    ensures
        var_renders(v),
{
    match first_with_from(v.fields, 0, true) {
        Some(k) => {
            lemma_first_with_from(v.fields, 0, true);
            lemma_first_with_from(v.fields, 0, false);
        },
        None => {},
    }
}

proof fn lemma_first_with_from(fs: Seq<FieldModel>, k: int, flag: bool)
    requires
        0 <= k,
    ensures
        first_with_from(fs, k, flag) matches Some(j) ==> k <= j < fs.len() && fs[j].has_from
            == flag,
    decreases fs.len() - k,
{
    if k < fs.len() && fs[k].has_from != flag {
        lemma_first_with_from(fs, k + 1, flag);
    }
}

/// Law: the generator can write every enum that the parser reads; deriving
/// never stops on a variant whose fields it cannot name.
pub proof fn lemma_parsed_enum_renders(ts: Seq<TokenTree>)
    ensures
        enum_renders(enum_decl(ts)),
{
    lemma_decl_fields_uniform(ts);
    let m = enum_decl(ts);
    assert forall|i: int| 0 <= i < m.vars.len() implies var_renders(#[trigger] m.vars[i]) by {
        lemma_uniform_renders(m.vars[i]);
    }
}

/// Law: a variant none of whose fields is marked `#[from]` gets no `From` impl.
pub proof fn lemma_no_from_without_mark(e: Seq<char>, v: VarModel)
    requires
        forall|i: int| 0 <= i < v.fields.len() ==> !(#[trigger] v.fields[i]).has_from,
    ensures
        from_impl(e, v) == Seq::<char>::empty(),
{
    lemma_first_with_from(v.fields, 0, true);
}

/// Law: a tuple variant marked `#[from]` gets a `From` impl from the type of
/// its field exactly when that field is its only one; the impl wraps the
/// value in the variant.
pub proof fn lemma_tuple_from(e: Seq<char>, v: VarModel)
    requires
        v.fields.len() > 0,
        v.fields[0].has_from,
        forall|i: int| 0 <= i < v.fields.len() ==> (#[trigger] v.fields[i]).name is None,
    ensures
        v.fields.len() == 1 ==> from_impl(e, v) == "impl std::convert::From<"@ + v.fields[0].ty
            + "> for "@ + e + " {\n                            fn from(err: "@ + v.fields[0].ty
            + ") -> Self {\n                                "@ + e + "::"@ + v.name
            + "(err)\n                            }\n                        }\n"@,
        v.fields.len() > 1 ==> from_impl(e, v) == Seq::<char>::empty(),
{
    assert(v.fields[0].name is None);
}

/// The position of the first field whose mark is `flag` is `k` when the
/// field at `k` has that mark and none before it does.
proof fn lemma_first_with_from_is(fs: Seq<FieldModel>, m: int, flag: bool, k: int)
    requires
        0 <= m <= k < fs.len(),
        fs[k].has_from == flag,
        forall|j: int| m <= j < k ==> (#[trigger] fs[j]).has_from != flag,
    ensures
        first_with_from(fs, m, flag) == Some(k),
    decreases k - m,
{
    if m < k {
        lemma_first_with_from_is(fs, m + 1, flag, k);
    }
}

/// Law: a struct-like variant whose first `#[from]` field (at `k`) is named,
/// and which has a field without the mark, gets exactly one `From` impl:
/// from the type of that field, putting the error in it and setting the
/// first unmarked field (at `s`, before or after `k`) to the variant's name.
pub proof fn lemma_struct_from(e: Seq<char>, v: VarModel, k: int, s: int)
    requires
        0 <= k < v.fields.len(),
        v.fields[k].has_from,
        v.fields[k].name is Some,
        forall|j: int| 0 <= j < k ==> !(#[trigger] v.fields[j]).has_from,
        0 <= s < v.fields.len(),
        !v.fields[s].has_from,
        forall|j: int| 0 <= j < s ==> (#[trigger] v.fields[j]).has_from,
    ensures
        from_impl(e, v) == "impl std::convert::From<"@ + v.fields[k].ty + "> for "@ + e
            + " {\n                            fn from(err: "@ + v.fields[k].ty
            + ") -> Self {\n                                "@ + e + "::"@ + v.name
            + " {\n                                    "@ + field_name(v.fields[s]) + ": \""@
            + v.name + "\",\n                                    "@ + field_name(v.fields[k])
            + ": err,\n                                }\n                            }\n                        }\n"@,
{
    lemma_first_with_from_is(v.fields, 0, true, k);
    lemma_first_with_from_is(v.fields, 0, false, s);
}

fn push_field_name(out: &mut String, f: &FieldInfo)
    ensures
        final(out)@ == old(out)@ + field_name(f@),
{
    match &f.name {
        Some(n) => out.append(n.as_str()),
        None => {
            assert(old(out)@ + Seq::<char>::empty() =~= old(out)@);
        },
    }
}

/// Appends the display arm of `v` to `out`.
fn push_display_arm(out: &mut String, e: &String, v: &Var)
    ensures
        final(out)@ == old(out)@ + display_arm(e@, v@),
{
    let ghost fv = v@.fields;
    let n = v.fields.len();
    let ghost start = out@;
    out.append(e.as_str());
    out.append("::");
    out.append(v.name.as_str());
    if n == 0 {
        out.append(" => write!(f, \"");
        match &v.error_arg {
            Some(m) => out.append(m.as_str()),
            None => out.append(v.name.as_str()),
        }
        out.append("\"),\n");
        assert(out@ =~= start + display_arm(e@, v@));
    } else if v.fields[0].name.is_some() {
        out.append(" { ");
        let ghost before_pattern = out@;
        let mut k: usize = 0;
        assert(fv.take(0) =~= Seq::<FieldModel>::empty());
        assert(out@ =~= before_pattern + struct_pattern(fv.take(0)));
        while k < n
            invariant
                n == v.fields.len(),
                fv == v@.fields,
                k <= n,
                out@ == before_pattern + struct_pattern(fv.take(k as int)),
            decreases n - k,
        {
            push_field_name(out, &v.fields[k]);
            out.append(", ");
            assert(fv.take(k + 1).drop_last() =~= fv.take(k as int));
            assert(fv[k as int] == v.fields@[k as int]@);
            assert(out@ =~= before_pattern + struct_pattern(fv.take(k + 1)));
            k = k + 1;
        }
        assert(fv.take(n as int) =~= fv);
        out.append(" } => write!(f, \"");
        match &v.error_arg {
            Some(m) => out.append(m.as_str()),
            None => out.append(v.name.as_str()),
        }
        out.append("\" ");
        let ghost before_args = out@;
        let mut k: usize = 0;
        assert(out@ =~= before_args + struct_args(fv.take(0)));
        while k < n
            invariant
                n == v.fields.len(),
                fv == v@.fields,
                k <= n,
                out@ == before_args + struct_args(fv.take(k as int)),
            decreases n - k,
        {
            out.append(", ");
            push_field_name(out, &v.fields[k]);
            assert(fv.take(k + 1).drop_last() =~= fv.take(k as int));
            assert(fv[k as int] == v.fields@[k as int]@);
            assert(out@ =~= before_args + struct_args(fv.take(k + 1)));
            k = k + 1;
        }
        out.append("),\n");
        assert(out@ =~= start + display_arm(e@, v@));
    } else {
        out.append(" ( ");
        let ghost before_pattern = out@;
        let mut k: usize = 0;
        assert(out@ =~= before_pattern + tuple_pattern(0));
        while k < n
            invariant
                k <= n,
                out@ == before_pattern + tuple_pattern(k as nat),
            decreases n - k,
        {
            out.append("_v");
            push_decimal(out, k);
            out.append(", ");
            assert(out@ =~= before_pattern + tuple_pattern((k + 1) as nat));
            k = k + 1;
        }
        out.append(" ) => write!(f, \"");
        match &v.error_arg {
            Some(m) => out.append(m.as_str()),
            None => out.append(v.name.as_str()),
        }
        out.append("\" ");
        let ghost before_args = out@;
        let mut k: usize = 0;
        assert(out@ =~= before_args + tuple_args(0));
        while k < n
            invariant
                k <= n,
                out@ == before_args + tuple_args(k as nat),
            decreases n - k,
        {
            out.append(", _v");
            push_decimal(out, k);
            assert(out@ =~= before_args + tuple_args((k + 1) as nat));
            k = k + 1;
        }
        out.append("),\n");
        assert(out@ =~= start + display_arm(e@, v@));
    }
}

/// The position of the first field whose `from` mark is `flag`.
fn find_from(fs: &Vec<FieldInfo>, flag: bool) -> (r: Option<usize>)
    ensures
        r matches Some(k) ==> k < fs.len(),
        match r {
            Some(k) => first_with_from(fields_view(fs@), 0, flag) == Some(k as int),
            None => first_with_from(fields_view(fs@), 0, flag) is None,
        },
{
    let ghost fv = fields_view(fs@);
    let n = fs.len();
    let mut k: usize = 0;
    while k < n
        invariant
            n == fs.len(),
            fv == fields_view(fs@),
            k <= n,
            first_with_from(fv, k as int, flag) == first_with_from(fv, 0, flag),
        decreases n - k,
    {
        assert(fv[k as int] == fs@[k as int]@);
        if fs[k].has_from == flag {
            return Some(k);
        }
        k = k + 1;
    }
    None
}

/// Appends the `From` impl of `v`, if it gets one, to `out`.
fn push_from_impl(out: &mut String, e: &String, v: &Var)
    requires
        var_renders(v@),
    ensures
        final(out)@ == old(out)@ + from_impl(e@, v@),
{
    let ghost fv = v@.fields;
    let ghost start = out@;
    match find_from(&v.fields, true) {
        None => {
            assert(out@ =~= start + from_impl(e@, v@));
        },
        Some(k) => {
            let ff = &v.fields[k];
            assert(fv[k as int] == ff@);
            match &ff.name {
                Some(fname) => {
                    match find_from(&v.fields, false) {
                        None => {
                            assert(out@ =~= start + from_impl(e@, v@));
                        },
                        Some(s) => {
                            assert(fv[s as int] == v.fields@[s as int]@);
                            out.append("impl std::convert::From<");
                            out.append(ff.ty.as_str());
                            out.append("> for ");
                            out.append(e.as_str());
                            out.append(" {\n                            fn from(err: ");
                            out.append(ff.ty.as_str());
                            out.append(") -> Self {\n                                ");
                            out.append(e.as_str());
                            out.append("::");
                            out.append(v.name.as_str());
                            out.append(" {\n                                    ");
                            push_field_name(out, &v.fields[s]);
                            out.append(": \"");
                            out.append(v.name.as_str());
                            out.append("\",\n                                    ");
                            out.append(fname.as_str());
                            out.append(
                                ": err,\n                                }\n                            }\n                        }\n",
                            );
                            assert(out@ =~= start + from_impl(e@, v@));
                        },
                    }
                },
                None => {
                    if v.fields.len() == 1 {
                        out.append("impl std::convert::From<");
                        out.append(ff.ty.as_str());
                        out.append("> for ");
                        out.append(e.as_str());
                        out.append(" {\n                            fn from(err: ");
                        out.append(ff.ty.as_str());
                        out.append(") -> Self {\n                                ");
                        out.append(e.as_str());
                        out.append("::");
                        out.append(v.name.as_str());
                        out.append("(err)\n                            }\n                        }\n");
                    }
                    assert(out@ =~= start + from_impl(e@, v@));
                },
            }
        },
    }
}

/// Writes the source text of the impls that the derive adds to an error
/// enum: `Display`, whose arm for each variant writes its template with the
/// variant's fields; an empty `Error`; and one `From` per variant that
/// `from_impl` describes.
pub fn generate_code(perechislenie: Enum) -> (r: String)
    requires
        enum_renders(perechislenie@),
    ensures
        r@ == generated(perechislenie@),
{
    let enum_name = &perechislenie.name;
    let ghost vs = perechislenie@.vars;
    let mut display_text = String::new();
    let mut from_text = String::new();
    let n = perechislenie.vars.len();
    let mut i: usize = 0;
    assert(vs.take(0) =~= Seq::<VarModel>::empty());
    while i < n
        invariant
            n == perechislenie.vars.len(),
            vs == perechislenie@.vars,
            vs == vars_view(perechislenie.vars@),
            enum_renders(perechislenie@),
            i <= n,
            display_text@ == display_arms(enum_name@, vs.take(i as int)),
            from_text@ == from_impls(enum_name@, vs.take(i as int)),
        decreases n - i,
    {
        let var = &perechislenie.vars[i];
        assert(vs[i as int] == var@);
        assert(var_renders(vs[i as int]));
        push_display_arm(&mut display_text, enum_name, var);
        push_from_impl(&mut from_text, enum_name, var);
        assert(vs.take(i + 1).drop_last() =~= vs.take(i as int));
        i = i + 1;
    }
    assert(vs.take(n as int) =~= vs);
    let mut out = String::new();
    out.append("\n        impl std::fmt::Display for ");
    out.append(enum_name.as_str());
    out.append(
        " {\n            fn fmt(&self, f: &mut std::fmt::Formatter<'_>) -> std::fmt::Result {\n                match self {\n                    ",
    );
    out.append(display_text.as_str());
    out.append("\n                }\n            }\n        }\n        impl std::error::Error for ");
    out.append(enum_name.as_str());
    out.append(" {}\n        ");
    out.append(from_text.as_str());
    out.append("\n        ");
    assert(out@ =~= generated(perechislenie@));
    out
}

/// The derive: reads the error enum out of its input and writes its impls.
pub fn error(item: Vec<TokenTree>) -> (r: String)
    ensures
        r@ == generated(enum_decl(item@)),
{
    let error = parse_enum(&item);
    proof {
        lemma_parsed_enum_renders(item@);
    }
    generate_code(error)
}

} // verus!
