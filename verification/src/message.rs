//! The text that a generated `Display` arm writes: the variant's template
//! with each `{}` replaced by the next field's display text.
use vstd::prelude::*;
use crate::codegen::message_of;
use crate::decl::Var;
use crate::text::chars_of;

verus! {

/// `write!` with template `t` and arguments whose display texts are `args`.
/// The model covers only templates made of plain text, `{}` placeholders and
/// the escapes `{{` and `}}`, with one argument per placeholder. It gives
/// `None` for every other template: a lone brace or a count mismatch, which
/// `write!` refuses too, but also forms that `write!` accepts and this model
/// does not cover, such as `{0}`, `{name}` or `{:?}`.
pub open spec fn fill_template(t: Seq<char>, args: Seq<Seq<char>>) -> Option<Seq<char>>
    decreases t.len(),
{
    if t.len() == 0 {
        if args.len() == 0 {
            Some(seq![])
        } else {
            None
        }
    } else if t[0] == '{' {
        if t.len() > 1 && t[1] == '{' {
            match fill_template(t.skip(2), args) {
                Some(r) => Some(seq!['{'] + r),
                None => None,
            }
        } else if t.len() > 1 && t[1] == '}' && args.len() > 0 {
            match fill_template(t.skip(2), args.drop_first()) {
                Some(r) => Some(args[0] + r),
                None => None,
            }
        } else {
            None
        }
    } else if t[0] == '}' {
        if t.len() > 1 && t[1] == '}' {
            match fill_template(t.skip(2), args) {
                Some(r) => Some(seq!['}'] + r),
                None => None,
            }
        } else {
            None
        }
    } else {
        match fill_template(t.drop_first(), args) {
            Some(r) => Some(seq![t[0]] + r),
            None => None,
        }
    }
}

impl Var {
    /// The template that this variant displays: its `#[error]` message, or
    /// else its name.
    pub fn message(&self) -> (r: String)
        ensures
            r@ == message_of(self@),
    {
        match &self.error_arg {
            Some(m) => m.clone(),
            None => self.name.clone(),
        }
    }
}

/// The text of `write!(f, template, args...)` where `args` are the display
/// texts of the arguments, for the templates that `fill_template` covers;
/// `None` for any other template.
pub fn format_message(template: &str, args: &Vec<String>) -> (r: Option<String>)
    ensures
        match r {
            Some(s) => fill_template(template@, args@.map_values(|a: String| a@)) == Some(s@),
            None => fill_template(template@, args@.map_values(|a: String| a@)) is None,
        },
{
    let ghost av = args@.map_values(|a: String| a@);
    let t = chars_of(template);
    let n = t.len();
    let mut out = String::new();
    let mut i: usize = 0;
    let mut a: usize = 0;
    assert(t@.skip(0) =~= t@);
    assert(av.skip(0) =~= av);
    assert(out@ + Seq::<char>::empty() =~= Seq::<char>::empty());
    while i < n
        invariant
            t@ == template@,
            n == t.len(),
            i <= n,
            a <= args.len(),
            av == args@.map_values(|a: String| a@),
            match fill_template(t@.skip(i as int), av.skip(a as int)) {
                Some(rest) => fill_template(t@, av) == Some(out@ + rest),
                None => fill_template(t@, av) is None,
            },
        decreases n - i,
    {
        let ghost s = t@.skip(i as int);
        let ghost rest_args = av.skip(a as int);
        assert(s[0] == t@[i as int]);
        if i + 1 < n {
            assert(s[1] == t@[i + 1]);
            assert(s.skip(2) =~= t@.skip(i + 2));
        }
        assert(s.drop_first() =~= t@.skip(i + 1));
        let c = t[i];
        let ghost out0 = out@;
        if c == '{' {
            if i + 1 < n && t[i + 1] == '{' {
                proof { reveal_strlit("{"); }
                out.append("{");
                i = i + 2;
                proof {
                    if let Some(rest) = fill_template(t@.skip(i as int), av.skip(a as int)) {
                        assert(out0 + (seq!['{'] + rest) =~= out@ + rest);
                    }
                }
            } else if i + 1 < n && t[i + 1] == '}' && a < args.len() {
                assert(rest_args[0] == args@[a as int]@);
                assert(rest_args.drop_first() =~= av.skip(a + 1));
                out.append(args[a].as_str());
                i = i + 2;
                a = a + 1;
                proof {
                    if let Some(rest) = fill_template(t@.skip(i as int), av.skip(a as int)) {
                        assert(out0 + (rest_args[0] + rest) =~= out@ + rest);
                    }
                }
            } else {
                return None;
            }
        } else if c == '}' {
            if i + 1 < n && t[i + 1] == '}' {
                proof { reveal_strlit("}"); }
                out.append("}");
                i = i + 2;
                proof {
                    if let Some(rest) = fill_template(t@.skip(i as int), av.skip(a as int)) {
                        assert(out0 + (seq!['}'] + rest) =~= out@ + rest);
                    }
                }
            } else {
                return None;
            }
        } else {
            let one = template.substring_char(i, i + 1);
            assert(one@ =~= seq![c]);
            out.append(one);
            i = i + 1;
            proof {
                if let Some(rest) = fill_template(t@.skip(i as int), av.skip(a as int)) {
                    assert(out0 + (seq![c] + rest) =~= out@ + rest);
                }
            }
        }
    }
    assert(t@.skip(n as int) =~= Seq::<char>::empty());
    if a < args.len() {
        return None;
    }
    assert(av.skip(a as int).len() == 0);
    assert(out@ + Seq::<char>::empty() =~= out@);
    Some(out)
}

} // verus!
