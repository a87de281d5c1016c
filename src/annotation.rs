//! The structured declaration handed over by the host parser: annotations,
//! their entries and the literal values they carry.
use vstd::prelude::*;

use crate::error::DeriveError;

verus! {

/// A literal value of an annotation entry. Numbers keep their token text.
#[derive(Debug, PartialEq, Eq)]
pub enum Lit {
    Str(String),
    Int(String),
    Float(String),
    Bool(bool),
}

impl Lit {
    /// An equal copy of this literal.
    pub fn duplicate(&self) -> (r: Lit)
        ensures
            r == *self,
    {
        match self {
            Lit::Str(s) => Lit::Str(s.clone()),
            Lit::Int(s) => Lit::Int(s.clone()),
            Lit::Float(s) => Lit::Float(s.clone()),
            Lit::Bool(b) => Lit::Bool(*b),
        }
    }
}


/// A `name = literal` entry.
#[derive(Debug, PartialEq, Eq)]
pub struct NameValue {
    pub name: String,
    pub lit: Lit,
}

impl NameValue {
    /// An equal copy of this entry.
    pub fn duplicate(&self) -> (r: NameValue)
        ensures
            r == *self,
    {
        NameValue { name: self.name.clone(), lit: self.lit.duplicate() }
    }
}

/// One entry of a parenthesized annotation list.
#[derive(Debug)]
pub enum Entry {
    /// `name = literal`
    NameValue(NameValue),
    /// A bare name, as in `(flag)`.
    Flag,
    /// A nested list, as in `(inner(a = 1))`.
    Nested,
    /// A positional literal, as in `("x")`.
    Literal(Lit),
}

/// What follows the name of an annotation.
#[derive(Debug)]
pub enum AnnotationBody {
    /// `#[name(entries)]`
    List(Vec<Entry>),
    /// `#[name]`
    Word,
    /// `#[name = literal]`
    Assign(Lit),
    /// Tokens that form none of the shapes above.
    Unparsed,
}

/// A declaration-level annotation: its name and its body.
#[derive(Debug)]
pub struct RawAnnotation {
    pub name: String,
    pub body: AnnotationBody,
}

/// A field of the declared type: its name, absent for a positional field,
/// and its own annotations.
#[derive(Debug)]
pub struct RawField {
    pub name: Option<String>,
    pub annotations: Vec<RawAnnotation>,
}

/// The shape of the declared type.
#[derive(Debug)]
pub enum DataShape {
    /// A structure with its fields in declaration order.
    Struct(Vec<RawField>),
    /// A sum type.
    Enum,
    /// A union.
    Union,
}

/// A type declaration as the host parser hands it over.
#[derive(Debug)]
pub struct Declaration {
    pub name: String,
    pub annotations: Vec<RawAnnotation>,
    pub data: DataShape,
}

/// The pairs of a list of entries, or the error at the first entry that is
/// not a pair.
pub open spec fn entry_pairs(es: Seq<Entry>) -> Result<Seq<NameValue>, DeriveError>
    decreases es.len(),
{
    if es.len() == 0 {
        Ok(Seq::empty())
    } else {
        match entry_pairs(es.drop_last()) {
            Err(e) => Err(e),
            Ok(p) => match es.last() {
                Entry::NameValue(nv) => Ok(p.push(nv)),
                _ => Err(DeriveError::UnsupportedAnnotationEntry),
            },
        }
    }
}

/// The pairs of one annotation of the namespace.
pub open spec fn annotation_pairs(a: RawAnnotation) -> Result<Seq<NameValue>, DeriveError> {
    match a.body {
        AnnotationBody::List(es) => entry_pairs(es@),
        _ => Err(DeriveError::MalformedAnnotationShape),
    }
}

/// The pairs of all annotations named `ns`, flattened in declaration order;
/// the first malformed annotation or entry met on the way is the error.
/// Annotations of other names are not looked into.
pub open spec fn namespace_pairs(anns: Seq<RawAnnotation>, ns: Seq<char>) -> Result<
    Seq<NameValue>,
    DeriveError,
>
    decreases anns.len(),
{
    if anns.len() == 0 {
        Ok(Seq::empty())
    } else {
        match namespace_pairs(anns.drop_last(), ns) {
            Err(e) => Err(e),
            Ok(p) => if anns.last().name@ == ns {
                match annotation_pairs(anns.last()) {
                    Err(e) => Err(e),
                    Ok(q) => Ok(p + q),
                }
            } else {
                Ok(p)
            },
        }
    }
}

/// An error met in a prefix of the entries is the error of the whole list.
proof fn lemma_entry_error_stays(es: Seq<Entry>, n: int)
    requires
        0 <= n <= es.len(),
        entry_pairs(es.subrange(0, n)) is Err,
    ensures
        entry_pairs(es) == entry_pairs(es.subrange(0, n)),
    decreases es.len(),
{
    if n == es.len() {
        assert(es.subrange(0, n) =~= es);
    } else {
        assert(es.drop_last().subrange(0, n) =~= es.subrange(0, n));
        lemma_entry_error_stays(es.drop_last(), n);
    }
}

/// An error met in a prefix of the annotations is the error of the whole list.
proof fn lemma_namespace_error_stays(anns: Seq<RawAnnotation>, ns: Seq<char>, n: int)
    requires
        0 <= n <= anns.len(),
        namespace_pairs(anns.subrange(0, n), ns) is Err,
    ensures
        namespace_pairs(anns, ns) == namespace_pairs(anns.subrange(0, n), ns),
    decreases anns.len(),
{
    if n == anns.len() {
        assert(anns.subrange(0, n) =~= anns);
    } else {
        assert(anns.drop_last().subrange(0, n) =~= anns.subrange(0, n));
        lemma_namespace_error_stays(anns.drop_last(), ns, n);
    }
}

/// Whether some annotation is named `ns`.
pub open spec fn has_named(anns: Seq<RawAnnotation>, ns: Seq<char>) -> bool {
    exists|k: int| 0 <= k < anns.len() && #[trigger] anns[k].name@ == ns
}

/// The `name = literal` pairs of the annotations named `attribute`, in order.
pub fn parse_attribute(input: &Vec<RawAnnotation>, attribute: &str) -> (r: Result<
    Vec<NameValue>,
    DeriveError,
>)
    ensures
        match namespace_pairs(input@, attribute@) {
            Ok(p) => r is Ok && r->Ok_0@ == p,
            Err(e) => r == Err::<Vec<NameValue>, DeriveError>(e),
        },
{
    let target = attribute.to_owned();
    let mut out: Vec<NameValue> = Vec::new();
    let mut i: usize = 0;
    while i < input.len()
        invariant
            0 <= i <= input@.len(),
            target@ == attribute@,
            namespace_pairs(input@.subrange(0, i as int), attribute@) == Ok::<
                Seq<NameValue>,
                DeriveError,
            >(out@),
        decreases input@.len() - i,
    {
        let ghost before = input@.subrange(0, i as int);
        assert(input@.subrange(0, i + 1).drop_last() =~= before);
        if input[i].name == target {
            match &input[i].body {
                AnnotationBody::List(es) => {
                    let ghost p0 = out@;
                    let ghost mut q: Seq<NameValue> = Seq::empty();
                    let mut j: usize = 0;
                    while j < es.len()
                        invariant
                            0 <= i < input@.len(),
                            input@[i as int].name@ == attribute@,
                            input@[i as int].body == AnnotationBody::List(*es),
                            namespace_pairs(input@.subrange(0, i as int), attribute@) == Ok::<
                                Seq<NameValue>,
                                DeriveError,
                            >(p0),
                            0 <= j <= es@.len(),
                            entry_pairs(es@.subrange(0, j as int)) == Ok::<
                                Seq<NameValue>,
                                DeriveError,
                            >(q),
                            out@ == p0 + q,
                        decreases es@.len() - j,
                    {
                        assert(es@.subrange(0, j + 1).drop_last() =~= es@.subrange(0, j as int));
                        match &es[j] {
                            Entry::NameValue(nv) => {
                                out.push(nv.duplicate());
                                proof {
                                    q = q.push(*nv);
                                }
                                assert(out@ =~= p0 + q);
                            },
                            _ => {
                                proof {
                                    lemma_entry_error_stays(es@, j + 1);
                                    assert(input@.subrange(0, i + 1).drop_last() =~= input@.subrange(
                                        0,
                                        i as int,
                                    ));
                                    lemma_namespace_error_stays(input@, attribute@, i + 1);
                                }
                                return Err(DeriveError::UnsupportedAnnotationEntry);
                            },
                        }
                        j = j + 1;
                    }
                    assert(es@.subrange(0, es@.len() as int) =~= es@);
                },
                _ => {
                    proof {
                        lemma_namespace_error_stays(input@, attribute@, i + 1);
                    }
                    return Err(DeriveError::MalformedAnnotationShape);
                },
            }
        }
        i = i + 1;
    }
    assert(input@.subrange(0, input@.len() as int) =~= input@);
    Ok(out)
}

/// Whether an annotation named `attribute` is present, whatever its body.
pub fn has_annotation(input: &Vec<RawAnnotation>, attribute: &str) -> (r: bool)
    ensures
        r == has_named(input@, attribute@),
{
    let target = attribute.to_owned();
    let mut i: usize = 0;
    while i < input.len()
        invariant
            0 <= i <= input@.len(),
            target@ == attribute@,
            forall|k: int| 0 <= k < i ==> #[trigger] input@[k].name@ != attribute@,
        decreases input@.len() - i,
    {
        if input[i].name == target {
            return true;
        }
        i = i + 1;
    }
    false
}

} // verus!
