//! The error enum as the parser reads it and the generator writes it.
use vstd::prelude::*;

verus! {

/// One field of a variant.
#[derive(Debug, Clone)]
pub struct FieldInfo {
    /// The field's name in a struct-like variant; `None` in a tuple variant.
    pub name: Option<String>,
    /// The field's type, as source text.
    pub ty: String,
    /// Whether the field is marked `#[from]` (or its tuple variant is).
    pub has_from: bool,
}

/// One variant of the enum.
#[derive(Debug)]
pub struct Var {
    pub name: String,
    pub fields: Vec<FieldInfo>,
    /// The message template of its `#[error("...")]` attribute, quotes removed.
    pub error_arg: Option<String>,
}

/// The enum that the derive is applied to.
#[derive(Debug)]
pub struct Enum {
    pub is_pub: bool,
    pub name: String,
    pub vars: Vec<Var>,
}

#[verifier::ext_equal]
pub struct FieldModel {
    pub name: Option<Seq<char>>,
    pub ty: Seq<char>,
    pub has_from: bool,
}

#[verifier::ext_equal]
pub struct VarModel {
    pub name: Seq<char>,
    pub fields: Seq<FieldModel>,
    pub error_arg: Option<Seq<char>>,
}

#[verifier::ext_equal]
pub struct EnumModel {
    pub is_pub: bool,
    pub name: Seq<char>,
    pub vars: Seq<VarModel>,
}

pub open spec fn opt_text(o: Option<String>) -> Option<Seq<char>> {
    match o {
        Some(s) => Some(s@),
        None => None,
    }
}

impl View for FieldInfo {
    type V = FieldModel;

    open spec fn view(&self) -> FieldModel {
        FieldModel { name: opt_text(self.name), ty: self.ty@, has_from: self.has_from }
    }
}

pub open spec fn fields_view(fs: Seq<FieldInfo>) -> Seq<FieldModel> {
    fs.map_values(|f: FieldInfo| f@)
}

pub open spec fn vars_view(vs: Seq<Var>) -> Seq<VarModel> {
    vs.map_values(|v: Var| v@)
}

impl View for Var {
    type V = VarModel;

    open spec fn view(&self) -> VarModel {
        VarModel {
            name: self.name@,
            fields: fields_view(self.fields@),
            error_arg: opt_text(self.error_arg),
        }
    }
}

impl View for Enum {
    type V = EnumModel;

    open spec fn view(&self) -> EnumModel {
        EnumModel { is_pub: self.is_pub, name: self.name@, vars: vars_view(self.vars@) }
    }
}

/// The variant before anything is known of it: no name, fields or message.
pub open spec fn empty_var() -> VarModel {
    VarModel { name: seq![], fields: seq![], error_arg: None }
}

impl Default for Var {
    fn default() -> (r: Self)
        ensures
            r@ == empty_var(),
    {
        let r = Var { name: String::new(), fields: Vec::new(), error_arg: None };
        assert(r@.fields =~= Seq::<FieldModel>::empty());
        r
    }
}

} // verus!
