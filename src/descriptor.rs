//! Building the type descriptor and the field descriptors of a declaration.
use vstd::prelude::*;

use itertools::Itertools;

use crate::annotation::{
    has_annotation, has_named, namespace_pairs, parse_attribute, DataShape, Declaration, Lit,
    RawAnnotation, RawField,
};
use crate::error::DeriveError;
use crate::resolve::{
    distinct_names, given, lemma_slot_given, lemma_too_many_arguments, names_of, parse_meta_to_lit,
    resolve_arguments,
};

verus! {

/// The annotation namespace of this facility.
pub const CONFIG_ATTRIBUTE: &'static str = "from_config";

/// The annotation whose presence marks command-line integration.
pub const STRUCTOPT_ATTRIBUTE: &'static str = "StructOpt";

pub const PATH_ARGUMENT: &'static str = "path";

pub const SERIALIZED_ARGUMENT: &'static str = "serialized";

pub const SERIALIZER_ARGUMENT: &'static str = "serializer";

pub const DESERIALIZER_ARGUMENT: &'static str = "deserializer";

pub const SAVE_ARGUMENT: &'static str = "save";

/// The recognized names of the type-level annotation, in slot order.
pub open spec fn type_argument_names() -> Seq<Seq<char>> {
    seq![PATH_ARGUMENT@, SERIALIZED_ARGUMENT@, SERIALIZER_ARGUMENT@, DESERIALIZER_ARGUMENT@]
}

/// The recognized names of the field-level annotation.
pub open spec fn field_argument_names() -> Seq<Seq<char>> {
    seq![SAVE_ARGUMENT@]
}

/// Where the configuration comes from by default.
#[derive(Debug, PartialEq, Eq)]
pub enum ConfigInputType {
    /// A path expression to read from.
    Path(Lit),
    /// An inline serialized form.
    Serialized(Lit),
}

/// The descriptor of an annotated type.
#[derive(Debug, PartialEq, Eq)]
pub struct ConfigAttributes {
    pub input: ConfigInputType,
    pub serializer: Option<Lit>,
    pub deserializer: Option<Lit>,
    pub is_structopt_present: bool,
}

/// The descriptor of one field.
#[derive(Debug, PartialEq, Eq)]
pub struct ConfigField {
    pub name: String,
    pub save: Option<Lit>,
}

/// The type descriptor from the resolved slots `path, serialized, serializer,
/// deserializer` and the command-line flag.
pub open spec fn attributes_from_slots(slots: Seq<Option<Lit>>, cli: bool) -> Result<
    ConfigAttributes,
    DeriveError,
> {
    if slots[0] is Some && slots[1] is Some {
        Err(DeriveError::ConflictingInputSource)
    } else if slots[0] is Some {
        Ok(
            ConfigAttributes {
                input: ConfigInputType::Path(slots[0]->Some_0),
                serializer: slots[2],
                deserializer: slots[3],
                is_structopt_present: cli,
            },
        )
    } else if slots[1] is Some {
        Ok(
            ConfigAttributes {
                input: ConfigInputType::Serialized(slots[1]->Some_0),
                serializer: slots[2],
                deserializer: slots[3],
                is_structopt_present: cli,
            },
        )
    } else {
        Err(DeriveError::MissingInputSource)
    }
}

/// The type descriptor of a declaration with annotations `anns`.
pub open spec fn config_attributes_of(anns: Seq<RawAnnotation>) -> Result<
    ConfigAttributes,
    DeriveError,
> {
    match namespace_pairs(anns, CONFIG_ATTRIBUTE@) {
        Err(e) => Err(e),
        Ok(pairs) => match resolve_arguments(pairs, type_argument_names()) {
            Err(e) => Err(e),
            Ok(slots) => attributes_from_slots(slots, has_named(anns, STRUCTOPT_ATTRIBUTE@)),
        },
    }
}

/// Relies on itertools' `Itertools::tuples`: its first tuple holds the first
/// four items, and there is none when fewer than four are given.
#[verifier::external_body]
fn first_four(v: Vec<Option<Lit>>) -> (r: Option<(Option<Lit>, Option<Lit>, Option<Lit>, Option<Lit>)>)
    ensures
        v@.len() >= 4 ==> r == Some((v@[0], v@[1], v@[2], v@[3])),
        v@.len() < 4 ==> r is None,
{
    v.into_iter().tuples().next()
}

fn type_arguments() -> (r: Vec<&'static str>)
    ensures
        names_of(r@) == type_argument_names(),
{
    let mut v: Vec<&'static str> = Vec::new();
    v.push(PATH_ARGUMENT);
    v.push(SERIALIZED_ARGUMENT);
    v.push(SERIALIZER_ARGUMENT);
    v.push(DESERIALIZER_ARGUMENT);
    assert(names_of(v@) =~= type_argument_names());
    v
}

impl ConfigAttributes {
    /// The type descriptor read from the type's annotations.
    pub fn new(attributes: &Vec<RawAnnotation>) -> (r: Result<ConfigAttributes, DeriveError>)
        ensures
            r == config_attributes_of(attributes@),
    {
        let name_values = match parse_attribute(attributes, CONFIG_ATTRIBUTE) {
            Ok(v) => v,
            Err(e) => return Err(e),
        };
        let slots = match parse_meta_to_lit(name_values, type_arguments()) {
            Ok(v) => v,
            Err(e) => return Err(e),
        };
        match first_four(slots) {
            Some((path, serialized, serializer, deserializer)) => {
                if path.is_some() && serialized.is_some() {
                    return Err(DeriveError::ConflictingInputSource);
                }
                let input = match path {
                    Some(lit) => ConfigInputType::Path(lit),
                    None => match serialized {
                        Some(lit) => ConfigInputType::Serialized(lit),
                        None => return Err(DeriveError::MissingInputSource),
                    },
                };
                Ok(
                    ConfigAttributes {
                        input,
                        serializer,
                        deserializer,
                        is_structopt_present: has_annotation(attributes, STRUCTOPT_ATTRIBUTE),
                    },
                )
            },
            None => {
                proof {
                    assert(false);
                }
                Err(DeriveError::MissingInputSource)
            },
        }
    }
}

/// The descriptor of a named field.
pub open spec fn config_field_of(f: RawField) -> Result<ConfigField, DeriveError> {
    match namespace_pairs(f.annotations@, CONFIG_ATTRIBUTE@) {
        Err(e) => Err(e),
        Ok(pairs) => match resolve_arguments(pairs, field_argument_names()) {
            Err(e) => Err(e),
            Ok(slots) => Ok(ConfigField { name: f.name->Some_0, save: slots[0] }),
        },
    }
}

/// Whether every field has a name.
pub open spec fn all_named(fields: Seq<RawField>) -> bool {
    forall|k: int| 0 <= k < fields.len() ==> (#[trigger] fields[k]).name is Some
}

/// The position of the first field without a name, or -1 when all have one.
pub open spec fn first_unnamed(fields: Seq<RawField>) -> int
    decreases fields.len(),
{
    if fields.len() == 0 {
        -1
    } else {
        let p = first_unnamed(fields.drop_last());
        if p >= 0 {
            p
        } else if fields.last().name is None {
            fields.len() - 1
        } else {
            -1
        }
    }
}

/// The descriptors of named fields, in order; the first failing field is the
/// error.
pub open spec fn field_descriptors(fields: Seq<RawField>) -> Result<Seq<ConfigField>, DeriveError>
    decreases fields.len(),
{
    if fields.len() == 0 {
        Ok(Seq::empty())
    } else {
        match field_descriptors(fields.drop_last()) {
            Err(e) => Err(e),
            Ok(p) => match config_field_of(fields.last()) {
                Err(e) => Err(e),
                Ok(cf) => Ok(p.push(cf)),
            },
        }
    }
}

/// The field descriptors of a declared type: only a structure whose fields
/// all have names has them.
pub open spec fn fields_of(data: DataShape) -> Result<Seq<ConfigField>, DeriveError> {
    match data {
        DataShape::Struct(fields) => if first_unnamed(fields@) >= 0 {
            Err(DeriveError::UnnamedFieldUnsupported { index: first_unnamed(fields@) as usize })
        } else {
            field_descriptors(fields@)
        },
        _ => Err(DeriveError::UnsupportedDataShape),
    }
}

proof fn lemma_first_unnamed_found(fields: Seq<RawField>, k: int)
    requires
        0 <= k < fields.len(),
        fields[k].name is None,
        forall|j: int| 0 <= j < k ==> (#[trigger] fields[j]).name is Some,
    ensures
        first_unnamed(fields) == k,
    decreases fields.len(),
{
    if k < fields.len() - 1 {
        lemma_first_unnamed_found(fields.drop_last(), k);
    } else {
        lemma_first_unnamed_absent(fields.drop_last());
    }
}

proof fn lemma_first_unnamed_absent(fields: Seq<RawField>)
    requires
        all_named(fields),
    ensures
        first_unnamed(fields) == -1,
    decreases fields.len(),
{
    if fields.len() > 0 {
        lemma_first_unnamed_absent(fields.drop_last());
    }
}

proof fn lemma_field_error_stays(fields: Seq<RawField>, n: int)
    requires
        0 <= n <= fields.len(),
        field_descriptors(fields.subrange(0, n)) is Err,
    ensures
        field_descriptors(fields) == field_descriptors(fields.subrange(0, n)),
    decreases fields.len(),
{
    if n == fields.len() {
        assert(fields.subrange(0, n) =~= fields);
    } else {
        assert(fields.drop_last().subrange(0, n) =~= fields.subrange(0, n));
        lemma_field_error_stays(fields.drop_last(), n);
    }
}

fn field_arguments() -> (r: Vec<&'static str>)
    ensures
        names_of(r@) == field_argument_names(),
{
    let mut v: Vec<&'static str> = Vec::new();
    v.push(SAVE_ARGUMENT);
    assert(names_of(v@) =~= field_argument_names());
    v
}

impl ConfigField {
    /// The descriptor of a named field, read from its annotations.
    pub fn new(field: &RawField) -> (r: Result<ConfigField, DeriveError>)
        requires
            field.name is Some,
        ensures
            r == config_field_of(*field),
    {
        let attribute = match parse_attribute(&field.annotations, CONFIG_ATTRIBUTE) {
            Ok(v) => v,
            Err(e) => return Err(e),
        };
        let mut slots = match parse_meta_to_lit(attribute, field_arguments()) {
            Ok(v) => v,
            Err(e) => return Err(e),
        };
        let save = slots.remove(0);
        let name = match &field.name {
            Some(n) => n.clone(),
            None => String::new(),
        };
        Ok(ConfigField { name, save })
    }
}

/// The field descriptors of the declared type, in field order.
pub fn parse_fields(data: &DataShape) -> (r: Result<Vec<ConfigField>, DeriveError>)
    ensures
        match fields_of(*data) {
            Ok(fs) => r is Ok && r->Ok_0@ == fs,
            Err(e) => r == Err::<Vec<ConfigField>, DeriveError>(e),
        },
{
    let fields = match data {
        DataShape::Struct(fields) => fields,
        _ => return Err(DeriveError::UnsupportedDataShape),
    };
    let mut k: usize = 0;
    while k < fields.len()
        invariant
            0 <= k <= fields@.len(),
            *data == DataShape::Struct(*fields),
            forall|j: int| 0 <= j < k ==> (#[trigger] fields@[j]).name is Some,
        decreases fields@.len() - k,
    {
        if fields[k].name.is_none() {
            proof {
                lemma_first_unnamed_found(fields@, k as int);
            }
            return Err(DeriveError::UnnamedFieldUnsupported { index: k });
        }
        k = k + 1;
    }
    proof {
        lemma_first_unnamed_absent(fields@);
    }
    let mut out: Vec<ConfigField> = Vec::new();
    let mut i: usize = 0;
    while i < fields.len()
        invariant
            0 <= i <= fields@.len(),
            *data == DataShape::Struct(*fields),
            all_named(fields@),
            first_unnamed(fields@) == -1,
            field_descriptors(fields@.subrange(0, i as int)) == Ok::<Seq<ConfigField>, DeriveError>(
                out@,
            ),
        decreases fields@.len() - i,
    {
        let ghost upto = fields@.subrange(0, i + 1);
        assert(upto.drop_last() =~= fields@.subrange(0, i as int));
        assert(upto.last() == fields@[i as int]);
        match ConfigField::new(&fields[i]) {
            Ok(cf) => {
                out.push(cf);
            },
            Err(e) => {
                proof {
                    assert(field_descriptors(upto) == Err::<Seq<ConfigField>, DeriveError>(e));
                    lemma_field_error_stays(fields@, i + 1);
                }
                return Err(e);
            },
        }
        i = i + 1;
    }
    assert(fields@.subrange(0, fields@.len() as int) =~= fields@);
    Ok(out)
}

/// Everything the code generator needs for one annotated type.
#[derive(Debug)]
pub struct SimpleConfDescriptor {
    pub name: String,
    pub attributes: ConfigAttributes,
    pub fields: Vec<ConfigField>,
}

/// What deriving from `d` gives: the type descriptor is read first, then the
/// fields.
pub open spec fn derivation_of(d: Declaration) -> Result<
    (ConfigAttributes, Seq<ConfigField>),
    DeriveError,
> {
    match config_attributes_of(d.annotations@) {
        Err(e) => Err(e),
        Ok(a) => match fields_of(d.data) {
            Err(e) => Err(e),
            Ok(fs) => Ok((a, fs)),
        },
    }
}

/// Whether `r` is what deriving from `d` gives.
pub open spec fn derives(d: Declaration, r: Result<SimpleConfDescriptor, DeriveError>) -> bool {
    match derivation_of(d) {
        Ok((a, fs)) => r is Ok && r->Ok_0.name == d.name && r->Ok_0.attributes == a
            && r->Ok_0.fields@ == fs,
        Err(e) => r == Err::<SimpleConfDescriptor, DeriveError>(e),
    }
}

/// The descriptors of an annotated type declaration, or the first fatal error.
pub fn generate_options(input: &Declaration) -> (r: Result<SimpleConfDescriptor, DeriveError>)
    ensures
        derives(*input, r),
{
    let attributes = match ConfigAttributes::new(&input.annotations) {
        Ok(a) => a,
        Err(e) => return Err(e),
    };
    let fields = match parse_fields(&input.data) {
        Ok(f) => f,
        Err(e) => return Err(e),
    };
    Ok(SimpleConfDescriptor { name: input.name.clone(), attributes, fields })
}

proof fn lemma_type_names_distinct()
    ensures
        distinct_names(type_argument_names()),
{
    reveal_strlit("path");
    reveal_strlit("serialized");
    reveal_strlit("serializer");
    reveal_strlit("deserializer");
    let names = type_argument_names();
    assert(names[0].len() == 4 && names[1].len() == 10 && names[2].len() == 10 && names[3].len()
        == 12);
    assert(names[1][9] != names[2][9]);
}

/// A type-level annotation whose arguments resolve sets exactly one input
/// source: the value of `path` when only `path` is given, the value of
/// `serialized` when only `serialized` is given; giving both is a conflict and
/// giving neither a missing source.
pub proof fn lemma_input_source_exclusive(anns: Seq<RawAnnotation>)
    requires
        namespace_pairs(anns, CONFIG_ATTRIBUTE@) is Ok,
        resolve_arguments(namespace_pairs(anns, CONFIG_ATTRIBUTE@)->Ok_0, type_argument_names()) is Ok,
    ensures
        ({
            let pairs = namespace_pairs(anns, CONFIG_ATTRIBUTE@)->Ok_0;
            let r = config_attributes_of(anns);
            &&& (given(pairs, PATH_ARGUMENT@) && given(pairs, SERIALIZED_ARGUMENT@)) ==> r
                == Err::<ConfigAttributes, DeriveError>(DeriveError::ConflictingInputSource)
            &&& (!given(pairs, PATH_ARGUMENT@) && !given(pairs, SERIALIZED_ARGUMENT@)) ==> r
                == Err::<ConfigAttributes, DeriveError>(DeriveError::MissingInputSource)
            &&& (given(pairs, PATH_ARGUMENT@) && !given(pairs, SERIALIZED_ARGUMENT@)) ==> r is Ok
                && exists|j: int|
                0 <= j < pairs.len() && (#[trigger] pairs[j]).name@ == PATH_ARGUMENT@
                    && r->Ok_0.input == ConfigInputType::Path(pairs[j].lit)
            &&& (!given(pairs, PATH_ARGUMENT@) && given(pairs, SERIALIZED_ARGUMENT@)) ==> r is Ok
                && exists|j: int|
                0 <= j < pairs.len() && (#[trigger] pairs[j]).name@ == SERIALIZED_ARGUMENT@
                    && r->Ok_0.input == ConfigInputType::Serialized(pairs[j].lit)
        }),
{
    let pairs = namespace_pairs(anns, CONFIG_ATTRIBUTE@)->Ok_0;
    lemma_type_names_distinct();
    lemma_slot_given(pairs, type_argument_names(), 0);
    lemma_slot_given(pairs, type_argument_names(), 1);
}

/// A type-level annotation with more than four entries fails for having too
/// many arguments, whatever the entries are.
pub proof fn lemma_type_too_many_arguments(anns: Seq<RawAnnotation>)
    requires
        namespace_pairs(anns, CONFIG_ATTRIBUTE@) is Ok,
        namespace_pairs(anns, CONFIG_ATTRIBUTE@)->Ok_0.len() > 4,
    ensures
        config_attributes_of(anns) == Err::<ConfigAttributes, DeriveError>(
            DeriveError::TooManyArguments {
                supplied: namespace_pairs(anns, CONFIG_ATTRIBUTE@)->Ok_0.len() as usize,
                recognized: 4,
            },
        ),
{
    lemma_too_many_arguments(namespace_pairs(anns, CONFIG_ATTRIBUTE@)->Ok_0, type_argument_names());
}

/// A field-level annotation with more than one entry fails for having too
/// many arguments, whatever the entries are.
pub proof fn lemma_field_too_many_arguments(f: RawField)
    requires
        namespace_pairs(f.annotations@, CONFIG_ATTRIBUTE@) is Ok,
        namespace_pairs(f.annotations@, CONFIG_ATTRIBUTE@)->Ok_0.len() > 1,
    ensures
        config_field_of(f) == Err::<ConfigField, DeriveError>(
            DeriveError::TooManyArguments {
                supplied: namespace_pairs(f.annotations@, CONFIG_ATTRIBUTE@)->Ok_0.len() as usize,
                recognized: 1,
            },
        ),
{
    lemma_too_many_arguments(
        namespace_pairs(f.annotations@, CONFIG_ATTRIBUTE@)->Ok_0,
        field_argument_names(),
    );
}

proof fn lemma_first_unnamed_range(fields: Seq<RawField>)
    ensures
        first_unnamed(fields) >= 0 ==> first_unnamed(fields) < fields.len() && fields[first_unnamed(
            fields,
        )].name is None,
    decreases fields.len(),
{
    if fields.len() > 0 {
        lemma_first_unnamed_range(fields.drop_last());
        let p = first_unnamed(fields.drop_last());
        if p >= 0 {
            assert(fields.drop_last()[p] == fields[p]);
        }
    }
}

proof fn lemma_first_unnamed_exists(fields: Seq<RawField>, k: int)
    requires
        0 <= k < fields.len(),
        fields[k].name is None,
    ensures
        0 <= first_unnamed(fields) <= k,
        fields[first_unnamed(fields)].name is None,
    decreases fields.len(),
{
    lemma_first_unnamed_range(fields);
    if k < fields.len() - 1 {
        assert(fields.drop_last()[k] == fields[k]);
        lemma_first_unnamed_exists(fields.drop_last(), k);
    } else {
        lemma_first_unnamed_range(fields.drop_last());
    }
}

/// A structure with a field lacking a name fails with the position of the
/// first such field, whatever the other fields hold; once the type-level
/// annotation is valid, so does the whole derivation.
pub proof fn lemma_unnamed_field_fails(d: Declaration, k: int)
    requires
        d.data is Struct,
        0 <= k < d.data->Struct_0@.len(),
        d.data->Struct_0@[k].name is None,
    ensures
        ({
            let fields = d.data->Struct_0@;
            let first = first_unnamed(fields);
            &&& 0 <= first <= k
            &&& fields[first].name is None
            &&& fields_of(d.data) == Err::<Seq<ConfigField>, DeriveError>(
                DeriveError::UnnamedFieldUnsupported { index: first as usize },
            )
            &&& config_attributes_of(d.annotations@) is Ok ==> derivation_of(d) == Err::<
                (ConfigAttributes, Seq<ConfigField>),
                DeriveError,
            >(DeriveError::UnnamedFieldUnsupported { index: first as usize })
        }),
{
    lemma_first_unnamed_exists(d.data->Struct_0@, k);
}

/// The field descriptors follow the fields one for one, in declaration order.
pub proof fn lemma_field_order(fields: Seq<RawField>)
    requires
        field_descriptors(fields) is Ok,
    ensures
        field_descriptors(fields)->Ok_0.len() == fields.len(),
        forall|k: int|
            0 <= k < fields.len() ==> (#[trigger] field_descriptors(fields)->Ok_0[k]).name
                == fields[k].name->Some_0,
    decreases fields.len(),
{
    if fields.len() > 0 {
        lemma_field_order(fields.drop_last());
        let out = field_descriptors(fields)->Ok_0;
        assert forall|k: int| 0 <= k < fields.len() implies (#[trigger] out[k]).name
            == fields[k].name->Some_0 by {
            if k < fields.len() - 1 {
                assert(fields.drop_last()[k] == fields[k]);
            }
        }
    }
}

/// Two derivations from the same declaration agree: same outcome, same
/// descriptors, same error.
pub proof fn lemma_derivation_deterministic(
    d: Declaration,
    r1: Result<SimpleConfDescriptor, DeriveError>,
    r2: Result<SimpleConfDescriptor, DeriveError>,
)
    requires
        derives(d, r1),
        derives(d, r2),
    ensures
        r1 is Ok <==> r2 is Ok,
        r1 is Ok ==> r1->Ok_0.name == r2->Ok_0.name && r1->Ok_0.attributes == r2->Ok_0.attributes
            && r1->Ok_0.fields@ == r2->Ok_0.fields@,
        r1 is Err ==> r1 == r2,
{
}

} // verus!
