//! S-expressions as the compilers read them, and the reading of program
//! text into one, which the `sexp` crate does.
use vstd::prelude::*;

verus! {

broadcast use vstd::std_specs::vec::axiom_vec_decreases_to_view;

/// An atom of an s-expression. A float atom is kept as the `sexp` crate
/// made it: no compiler here reads its value.
#[derive(Debug, PartialEq)]
pub enum SAtom {
    S(String),
    I(i64),
    F(sexp::Atom),
}

/// An s-expression: an atom, or a list of s-expressions.
#[derive(Debug, PartialEq)]
pub enum SExpr {
    Atom(SAtom),
    List(Vec<SExpr>),
}

/// The mathematical model of an [`SAtom`].
pub enum SpecAtom {
    S(Seq<char>),
    I(i64),
    F(sexp::Atom),
}

/// The mathematical model of a [`SExpr`].
pub enum SpecSExpr {
    Atom(SpecAtom),
    List(Seq<SpecSExpr>),
}

pub open spec fn view_atom(a: SAtom) -> SpecAtom {
    match a {
        SAtom::S(s) => SpecAtom::S(s@),
        SAtom::I(i) => SpecAtom::I(i),
        SAtom::F(f) => SpecAtom::F(f),
    }
}

pub open spec fn view_sexps(s: Seq<SExpr>) -> Seq<SpecSExpr>
    decreases s, 0int,
{
    if s.len() == 0 {
        Seq::empty()
    } else {
        view_sexps(s.drop_last()).push(view_sexp(s.last()))
    }
}

pub open spec fn view_sexp(s: SExpr) -> SpecSExpr
    decreases s, 1int,
{
    match s {
        SExpr::Atom(a) => SpecSExpr::Atom(view_atom(a)),
        SExpr::List(l) => SpecSExpr::List(view_sexps(l@)),
    }
}

impl View for SAtom {
    type V = SpecAtom;

    open spec fn view(&self) -> SpecAtom {
        view_atom(*self)
    }
}

impl View for SExpr {
    type V = SpecSExpr;

    open spec fn view(&self) -> SpecSExpr {
        view_sexp(*self)
    }
}

/// The model of a list has one element per element.
pub broadcast proof fn lemma_view_sexps(s: Seq<SExpr>)
    ensures
        #[trigger] view_sexps(s).len() == s.len(),
    decreases s.len(),
{
    if s.len() > 0 {
        lemma_view_sexps(s.drop_last());
    }
}

/// Each element of the model of a list is the model of the element.
pub broadcast proof fn lemma_view_sexps_index(s: Seq<SExpr>, i: int)
    requires
        0 <= i < s.len(),
    ensures
        #[trigger] view_sexps(s)[i] == view_sexp(s[i]),
    decreases s.len(),
{
    lemma_view_sexps(s);
    if i < s.len() - 1 {
        lemma_view_sexps_index(s.drop_last(), i);
        assert(s.drop_last()[i] == s[i]);
    }
}

/// The word of an s-expression that is a string atom.
pub open spec fn atom_word(s: SpecSExpr) -> Option<Seq<char>> {
    match s {
        SpecSExpr::Atom(SpecAtom::S(x)) => Some(x),
        _ => None,
    }
}

/// The word of `s`, where `s` is a string atom.
pub fn word_of<'a>(s: &'a SExpr) -> (r: Option<&'a str>)
    ensures
        match r {
            Some(x) => atom_word(s@) == Some(x@),
            None => atom_word(s@) is None,
        },
{
    match s {
        SExpr::Atom(SAtom::S(x)) => Some(x.as_str()),
        _ => None,
    }
}

/// Where and why the `sexp` crate refused a text.
#[derive(Debug, PartialEq)]
pub struct SexpError {
    pub message: String,
    pub line: usize,
    pub column: usize,
    pub index: usize,
}

/// The mathematical model of a [`SexpError`].
pub struct SpecSexpError {
    pub message: Seq<char>,
    pub line: usize,
    pub column: usize,
    pub index: usize,
}

impl View for SexpError {
    type V = SpecSexpError;

    open spec fn view(&self) -> SpecSexpError {
        SpecSexpError { message: self.message@, line: self.line, column: self.column, index: self.index }
    }
}

pub open spec fn view_read(r: Result<SExpr, SexpError>) -> Result<SpecSExpr, SpecSexpError> {
    match r {
        Ok(s) => Ok(s@),
        Err(e) => Err(e@),
    }
}

/// What `sexp::parse` gives for a text: the s-expression it reads, or where
/// and why it refuses the text.
pub uninterp spec fn sexp_parse(text: Seq<char>) -> Result<SpecSExpr, SpecSexpError>;

#[verifier::external_type_specification]
#[verifier::external_body]
pub struct ExOutsideSexp(sexp::Sexp);

#[verifier::external_type_specification]
#[verifier::external_body]
pub struct ExOutsideAtom(sexp::Atom);

/// Converts an s-expression of the `sexp` crate into this library's form,
/// node for node; a float atom keeps the text that `sexp` prints for it.
#[verifier::external_body]
fn lift_sexp(s: &sexp::Sexp) -> SExpr {
    match s {
        sexp::Sexp::Atom(sexp::Atom::S(x)) => SExpr::Atom(SAtom::S(x.clone())),
        sexp::Sexp::Atom(sexp::Atom::I(i)) => SExpr::Atom(SAtom::I(*i)),
        sexp::Sexp::Atom(a) => SExpr::Atom(SAtom::F(a.clone())),
        sexp::Sexp::List(v) => SExpr::List(v.iter().map(lift_sexp).collect()),
    }
}

/// Calls `sexp::parse` on `text`. The contract claims only that the result,
/// converted node for node, is what `sexp::parse` gives for that text (a
/// function of the text alone); what that is, is not stated here.
#[verifier::external_body]
pub(crate) fn read_sexp(text: &str) -> (r: Result<SExpr, SexpError>)
    ensures
        view_read(r) == sexp_parse(text@),
{
    match sexp::parse(text) {
        Ok(s) => Ok(lift_sexp(&s)),
        Err(e) => Err(SexpError {
            message: e.message.to_string(),
            line: e.line,
            column: e.column,
            index: e.index,
        }),
    }
}

/// Converts an s-expression of this library back into the `sexp` crate's
/// form, node for node.
#[verifier::external_body]
fn lower_sexp(s: &SExpr) -> sexp::Sexp {
    match s {
        SExpr::Atom(SAtom::S(x)) => sexp::Sexp::Atom(sexp::Atom::S(x.clone())),
        SExpr::Atom(SAtom::I(i)) => sexp::Sexp::Atom(sexp::Atom::I(*i)),
        SExpr::Atom(SAtom::F(a)) => sexp::Sexp::Atom(a.clone()),
        SExpr::List(v) => sexp::Sexp::List(v.iter().map(lower_sexp).collect()),
    }
}

/// The text that the `sexp` crate prints for an s-expression (its `Display`).
pub uninterp spec fn sexp_text(s: SpecSExpr) -> Seq<char>;

/// Calls the `Display` of `sexp::Sexp` on `s`. The contract claims only that
/// the result is what `sexp` prints for that s-expression (a function of it
/// alone); what that text is, is not stated here.
#[verifier::external_body]
pub(crate) fn display_sexp(s: &SExpr) -> (r: String)
    ensures
        r@ == sexp_text(s@),
{
    lower_sexp(s).to_string()
}

/// Calls the `Display` of `sexp::Atom` on `a`. The `Display` of
/// `sexp::Sexp` prints an atom node as its atom's `Display` and nothing
/// more, so the contract claims that the result is what `sexp` prints for
/// the s-expression that is this atom alone; what that text is, is not
/// stated here.
#[verifier::external_body]
pub(crate) fn display_atom(a: &SAtom) -> (r: String)
    ensures
        r@ == sexp_text(SpecSExpr::Atom(a@)),
{
    match a {
        SAtom::S(x) => sexp::Atom::S(x.clone()).to_string(),
        SAtom::I(i) => sexp::Atom::I(*i).to_string(),
        SAtom::F(f) => f.to_string(),
    }
}

} // verus!
