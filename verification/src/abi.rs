use vstd::prelude::*;

verus! {

/// A field element of the backend's arithmetic circuit, in its
/// canonical unsigned representation.
pub type FieldElement = u128;

/// Whether a schema parameter, or the return slot, is part of the
/// public interface of the circuit.
#[derive(Debug, Clone, Copy, PartialEq, Eq, Structural)]
pub enum AbiVisibility {
    Public,
    Private,
}

/// The declared type of a schema parameter.  An array holds `length`
/// elements of one element type; its values flatten to one field
/// element per leaf, in declaration order.
#[derive(Debug, PartialEq, Eq)]
pub enum AbiType {
    Field,
    Boolean,
    Array { length: u64, element: Box<AbiType> },
}

/// One named, typed parameter of a circuit's schema.
#[derive(Debug, PartialEq, Eq)]
pub struct AbiParameter {
    pub name: String,
    pub typ: AbiType,
    pub visibility: AbiVisibility,
}

/// The typed return slot of a circuit's schema.
#[derive(Debug, PartialEq, Eq)]
pub struct AbiReturnType {
    pub abi_type: AbiType,
    pub visibility: AbiVisibility,
}

/// A circuit's input/output schema: an ordered list of named, typed
/// parameters plus an optional typed return slot.  Parameter order is
/// fixed at compile time and determines field-element order on encode.
#[derive(Debug, PartialEq, Eq)]
pub struct Abi {
    pub parameters: Vec<AbiParameter>,
    pub return_type: Option<AbiReturnType>,
}

/// A user-supplied input value: a single field element, a boolean, or
/// an array of further values.
#[derive(Debug, PartialEq, Eq)]
pub enum InputValue {
    Field(FieldElement),
    Boolean(bool),
    Array(Vec<InputValue>),
}

/// The outermost shape of an input value, as reported in a type
/// mismatch.
#[derive(Debug, Clone, Copy, PartialEq, Eq, Structural)]
pub enum ValueShape {
    Field,
    Boolean,
    Array,
}

/// A malformed schema, handed over by the compiler: two parameters
/// share a name.
#[derive(Debug, PartialEq, Eq)]
pub enum SchemaError {
    DuplicateParameter { name: String },
}

/// An encoding failure: the named values do not satisfy the public
/// view being encoded.
#[derive(Debug, PartialEq, Eq)]
pub enum AbiError {
    /// No value was supplied for the named parameter.
    MissingInput { name: String },
    /// The value supplied for the named parameter has the wrong shape.
    TypeMismatch { name: String, expected: AbiType, actual: ValueShape },
    /// The public view declares a public return slot, but no return
    /// value was supplied.
    MissingReturn,
    /// The supplied return value has the wrong shape.
    ReturnTypeMismatch { expected: AbiType, actual: ValueShape },
}

/// How many field elements a value of type `t` flattens to.
pub open spec fn type_width(t: AbiType) -> nat
    decreases t,
{
    match t {
        AbiType::Field => 1,
        AbiType::Boolean => 1,
        AbiType::Array { length, element } => (length as nat) * type_width(*element),
    }
}

/// The outermost shape of a value.
pub open spec fn shape_of(v: InputValue) -> ValueShape {
    match v {
        InputValue::Field(_) => ValueShape::Field,
        InputValue::Boolean(_) => ValueShape::Boolean,
        InputValue::Array(_) => ValueShape::Array,
    }
}

/// Whether the shape of value `v` matches the declared type `t`.
pub open spec fn value_matches(v: InputValue, t: AbiType) -> bool
    decreases t,
{
    match t {
        AbiType::Field => v is Field,
        AbiType::Boolean => v is Boolean,
        AbiType::Array { length, element } => {
            &&& v matches InputValue::Array(items)
            &&& items@.len() == length
            &&& forall|i: int| 0 <= i < items@.len() ==> value_matches(items@[i], *element)
        },
    }
}

/// The canonical field-element encoding of a value of type `t`: a
/// field maps to itself, a boolean to one element (1 for true, 0 for
/// false), and an array to the concatenation of its elements'
/// encodings, in order.  Meaningful only when `value_matches(v, t)`.
pub open spec fn encode_value(v: InputValue, t: AbiType) -> Seq<FieldElement>
    decreases t, 0nat, 0nat,
{
    match t {
        AbiType::Field => match v {
            InputValue::Field(x) => seq![x],
            _ => Seq::empty(),
        },
        AbiType::Boolean => match v {
            InputValue::Boolean(b) => seq![if b { 1 as FieldElement } else { 0 as FieldElement }],
            _ => Seq::empty(),
        },
        AbiType::Array { length, element } => match v {
            InputValue::Array(items) => encode_items(items@, *element),
            _ => Seq::empty(),
        },
    }
}

/// The concatenated encodings of a sequence of array elements, each of
/// type `t`.
pub open spec fn encode_items(items: Seq<InputValue>, t: AbiType) -> Seq<FieldElement>
    decreases t, 1nat, items.len(),
{
    if items.len() == 0 {
        Seq::empty()
    } else {
        encode_value(items[0], t) + encode_items(items.drop_first(), t)
    }
}

/// The value supplied for `name`, if any: the first entry of that name.
pub open spec fn lookup_value(entries: Seq<(String, InputValue)>, name: Seq<char>) -> Option<
    InputValue,
>
    decreases entries.len(),
{
    if entries.len() == 0 {
        None
    } else if entries[0].0@ == name {
        Some(entries[0].1)
    } else {
        lookup_value(entries.drop_first(), name)
    }
}

/// No two parameters share a name.
pub open spec fn names_unique(params: Seq<AbiParameter>) -> bool {
    forall|i: int, j: int| 0 <= i < j < params.len() ==> params[i].name@ != params[j].name@
}

/// The public-tagged parameters, in declaration order.
pub open spec fn public_params(params: Seq<AbiParameter>) -> Seq<AbiParameter>
    decreases params.len(),
{
    if params.len() == 0 {
        Seq::empty()
    } else if params[0].visibility is Public {
        seq![params[0]] + public_params(params.drop_first())
    } else {
        public_params(params.drop_first())
    }
}

/// The return slot of the public view: kept exactly when the schema
/// declares a public return slot.
pub open spec fn public_return(return_type: Option<AbiReturnType>) -> Option<AbiReturnType> {
    match return_type {
        Some(rt) => if rt.visibility is Public {
            Some(rt)
        } else {
            None
        },
        None => None,
    }
}

/// Encodes the parameters of a public view against the supplied
/// entries, in declaration order: the value of the first parameter
/// whose name has no entry, or whose entry has the wrong shape, names
/// the error; otherwise the encodings are concatenated in order.
pub open spec fn encode_params(params: Seq<AbiParameter>, entries: Seq<(String, InputValue)>) -> Result<
    Seq<FieldElement>,
    AbiError,
>
    decreases params.len(),
{
    if params.len() == 0 {
        Ok(Seq::empty())
    } else {
        match lookup_value(entries, params[0].name@) {
            None => Err(AbiError::MissingInput { name: params[0].name }),
            Some(v) => if !value_matches(v, params[0].typ) {
                Err(
                    AbiError::TypeMismatch {
                        name: params[0].name,
                        expected: params[0].typ,
                        actual: shape_of(v),
                    },
                )
            } else {
                match encode_params(params.drop_first(), entries) {
                    Ok(rest) => Ok(encode_value(v, params[0].typ) + rest),
                    Err(e) => Err(e),
                }
            },
        }
    }
}

/// The full encoding of a public view: its parameters in declaration
/// order, then the return value exactly when the view declares a
/// public return slot.  When it declares none, a supplied return
/// value is ignored, not an error.
pub open spec fn spec_encode(
    abi: Abi,
    entries: Seq<(String, InputValue)>,
    return_value: Option<InputValue>,
) -> Result<Seq<FieldElement>, AbiError> {
    match encode_params(abi.parameters@, entries) {
        Err(e) => Err(e),
        Ok(fields) => match abi.return_type {
            None => Ok(fields),
            Some(rt) => if rt.visibility is Public {
                match return_value {
                    None => Err(AbiError::MissingReturn),
                    Some(rv) => if !value_matches(rv, rt.abi_type) {
                        Err(
                            AbiError::ReturnTypeMismatch {
                                expected: rt.abi_type,
                                actual: shape_of(rv),
                            },
                        )
                    } else {
                        Ok(fields + encode_value(rv, rt.abi_type))
                    },
                }
            } else {
                Ok(fields)
            },
        },
    }
}

/// Every parameter of the public view is public.
pub proof fn lemma_public_params_public(params: Seq<AbiParameter>)
    ensures
        forall|i: int|
            0 <= i < public_params(params).len() ==> public_params(
                params,
            )[i].visibility is Public,
    decreases params.len(),
{
    if params.len() > 0 {
        lemma_public_params_public(params.drop_first());
    }
}

/// A matching value encodes to exactly as many field elements as its
/// type's canonical width.
pub proof fn lemma_encode_value_width(v: InputValue, t: AbiType)
    requires
        value_matches(v, t),
    ensures
        encode_value(v, t).len() == type_width(t),
    decreases t, 0nat, 0nat,
{
    match t {
        AbiType::Field => {},
        AbiType::Boolean => {},
        AbiType::Array { length, element } => {
            if let InputValue::Array(items) = v {
                lemma_encode_items_width(items@, *element);
                assert((length as nat) * type_width(*element) == items@.len() * type_width(
                    *element,
                ));
            }
        },
    }
}

proof fn lemma_encode_items_width(items: Seq<InputValue>, t: AbiType)
    requires
        forall|i: int| 0 <= i < items.len() ==> value_matches(items[i], t),
    ensures
        encode_items(items, t).len() == items.len() * type_width(t),
    decreases t, 1nat, items.len(),
{
    if items.len() > 0 {
        lemma_encode_value_width(items[0], t);
        assert forall|i: int| 0 <= i < items.drop_first().len() implies value_matches(
            items.drop_first()[i],
            t,
        ) by {
            assert(items.drop_first()[i] == items[i + 1]);
        }
        lemma_encode_items_width(items.drop_first(), t);
        assert(type_width(t) + (items.len() - 1) * type_width(t) == items.len() * type_width(t))
            by (nonlinear_arith);
    }
}

/// The total canonical width of a list of parameters.
pub open spec fn params_width(params: Seq<AbiParameter>) -> nat
    decreases params.len(),
{
    if params.len() == 0 {
        0
    } else {
        type_width(params[0].typ) + params_width(params.drop_first())
    }
}

proof fn lemma_encode_params_length(params: Seq<AbiParameter>, entries: Seq<(String, InputValue)>)
    requires
        encode_params(params, entries) is Ok,
    ensures
        encode_params(params, entries)->Ok_0.len() == params_width(params),
    decreases params.len(),
{
    if params.len() > 0 {
        if let Some(v) = lookup_value(entries, params[0].name@) {
            lemma_encode_value_width(v, params[0].typ);
            lemma_encode_params_length(params.drop_first(), entries);
        }
    }
}

/// A successful encoding is exactly as long as the view is wide: the
/// sum of the parameters' canonical widths, plus the width of the
/// return slot when the view declares a public one and a return value
/// was supplied for it.
pub proof fn lemma_encoded_length(
    abi: Abi,
    entries: Seq<(String, InputValue)>,
    return_value: Option<InputValue>,
)
    requires
        spec_encode(abi, entries, return_value) is Ok,
    ensures
        spec_encode(abi, entries, return_value)->Ok_0.len() == params_width(abi.parameters@) + (
        match public_return(abi.return_type) {
            Some(rt) => type_width(rt.abi_type),
            None => 0,
        }),
{
    lemma_encode_params_length(abi.parameters@, entries);
    if let Some(rt) = public_return(abi.return_type) {
        if let Some(rv) = return_value {
            lemma_encode_value_width(rv, rt.abi_type);
        }
    }
}

/// Encoding is deterministic: any two results of encoding the same
/// public view, named values and return value are equal, element for
/// element.
pub proof fn lemma_encode_deterministic(
    abi: Abi,
    entries: Seq<(String, InputValue)>,
    return_value: Option<InputValue>,
    r1: Result<Seq<FieldElement>, AbiError>,
    r2: Result<Seq<FieldElement>, AbiError>,
)
    requires
        r1 == spec_encode(abi, entries, return_value),
        r2 == spec_encode(abi, entries, return_value),
    ensures
        r1 == r2,
{
}

proof fn lemma_encode_params_lookup_agree(
    params: Seq<AbiParameter>,
    e1: Seq<(String, InputValue)>,
    e2: Seq<(String, InputValue)>,
)
    requires
        forall|i: int|
            0 <= i < params.len() ==> lookup_value(e1, params[i].name@) == lookup_value(
                e2,
                params[i].name@,
            ),
    ensures
        encode_params(params, e1) == encode_params(params, e2),
    decreases params.len(),
{
    if params.len() > 0 {
        assert(lookup_value(e1, params[0].name@) == lookup_value(e2, params[0].name@));
        assert forall|i: int| 0 <= i < params.drop_first().len() implies lookup_value(
            e1,
            params.drop_first()[i].name@,
        ) == lookup_value(e2, params.drop_first()[i].name@) by {
            assert(params.drop_first()[i] == params[i + 1]);
        }
        lemma_encode_params_lookup_agree(params.drop_first(), e1, e2);
    }
}

/// No two entries share a name.
pub open spec fn entry_names_unique(entries: Seq<(String, InputValue)>) -> bool {
    forall|i: int, j: int| 0 <= i < j < entries.len() ==> entries[i].0@ != entries[j].0@
}

proof fn lemma_lookup_characterized(entries: Seq<(String, InputValue)>, name: Seq<char>)
    ensures
        (match lookup_value(entries, name) {
            Some(v) => exists|k: int|
                0 <= k < entries.len() && entries[k].0@ == name && entries[k].1 == v,
            None => forall|k: int| 0 <= k < entries.len() ==> entries[k].0@ != name,
        }),
    decreases entries.len(),
{
    if entries.len() > 0 && entries[0].0@ != name {
        lemma_lookup_characterized(entries.drop_first(), name);
        match lookup_value(entries.drop_first(), name) {
            Some(v) => {
                let k = choose|k: int|
                    0 <= k < entries.drop_first().len() && entries.drop_first()[k].0@ == name
                        && entries.drop_first()[k].1 == v;
                assert(entries[k + 1].0@ == name && entries[k + 1].1 == v);
            },
            None => {
                assert forall|k: int| 0 <= k < entries.len() implies entries[k].0@ != name by {
                    if k > 0 {
                        assert(entries.drop_first()[k - 1] == entries[k]);
                    }
                }
            },
        }
    }
}

proof fn lemma_lookup_insensitive_to_order(
    e1: Seq<(String, InputValue)>,
    e2: Seq<(String, InputValue)>,
    name: Seq<char>,
)
    requires
        e1.to_multiset() == e2.to_multiset(),
        entry_names_unique(e2),
    ensures
        lookup_value(e1, name) == lookup_value(e2, name),
{
    broadcast use vstd::seq_lib::group_to_multiset_ensures;

    lemma_lookup_characterized(e1, name);
    lemma_lookup_characterized(e2, name);
    match lookup_value(e1, name) {
        Some(v) => {
            let k = choose|k: int| 0 <= k < e1.len() && e1[k].0@ == name && e1[k].1 == v;
            assert(e1.contains(e1[k]));
            assert(e1.to_multiset().count(e1[k]) > 0);
            assert(e2.to_multiset().count(e1[k]) > 0);
            assert(e2.contains(e1[k]));
            let k2 = choose|k2: int| 0 <= k2 < e2.len() && e2[k2] == e1[k];
            match lookup_value(e2, name) {
                Some(v2) => {
                    let k3 = choose|k3: int|
                        0 <= k3 < e2.len() && e2[k3].0@ == name && e2[k3].1 == v2;
                    assert(k2 == k3);
                },
                None => {
                    assert(e2[k2].0@ != name);
                },
            }
        },
        None => {
            match lookup_value(e2, name) {
                Some(v2) => {
                    let k3 = choose|k3: int|
                        0 <= k3 < e2.len() && e2[k3].0@ == name && e2[k3].1 == v2;
                    assert(e2.contains(e2[k3]));
                    assert(e2.to_multiset().count(e2[k3]) > 0);
                    assert(e1.to_multiset().count(e2[k3]) > 0);
                    assert(e1.contains(e2[k3]));
                    let k = choose|k: int| 0 <= k < e1.len() && e1[k] == e2[k3];
                    assert(e1[k].0@ != name);
                },
                None => {},
            }
        },
    }
}

/// Encoding does not read the order entries stand in: entry lists
/// that hold the same entries, each keyed by unique names, encode
/// alike however their entries are ordered.
pub proof fn lemma_encode_insensitive_to_entry_order(
    abi: Abi,
    e1: Seq<(String, InputValue)>,
    e2: Seq<(String, InputValue)>,
    return_value: Option<InputValue>,
)
    requires
        e1.to_multiset() == e2.to_multiset(),
        entry_names_unique(e1),
        entry_names_unique(e2),
    ensures
        spec_encode(abi, e1, return_value) == spec_encode(abi, e2, return_value),
{
    assert forall|i: int| 0 <= i < abi.parameters@.len() implies lookup_value(
        e1,
        abi.parameters@[i].name@,
    ) == lookup_value(e2, abi.parameters@[i].name@) by {
        lemma_lookup_insensitive_to_order(e1, e2, abi.parameters@[i].name@);
    }
    lemma_encode_params_lookup_agree(abi.parameters@, e1, e2);
}

/// Encoding reads the named values only through the names of the
/// view's own parameters: two entry lists that supply the same value
/// for every parameter of the view encode alike, whatever else they
/// hold and in whatever order their entries stand.  In particular, a
/// value supplied for a parameter outside the view is never
/// inspected.
pub proof fn lemma_encode_reads_only_view_names(
    abi: Abi,
    e1: Seq<(String, InputValue)>,
    e2: Seq<(String, InputValue)>,
    return_value: Option<InputValue>,
)
    requires
        forall|i: int|
            0 <= i < abi.parameters@.len() ==> lookup_value(e1, abi.parameters@[i].name@)
                == lookup_value(e2, abi.parameters@[i].name@),
    ensures
        spec_encode(abi, e1, return_value) == spec_encode(abi, e2, return_value),
{
    lemma_encode_params_lookup_agree(abi.parameters@, e1, e2);
}

/// An owned copy of a declared type, for error reports.
fn copy_type(t: &AbiType) -> (r: AbiType)
    ensures
        r == *t,
    decreases t,
{
    match t {
        AbiType::Field => AbiType::Field,
        AbiType::Boolean => AbiType::Boolean,
        AbiType::Array { length, element } => AbiType::Array {
            length: *length,
            element: Box::new(copy_type(element)),
        },
    }
}

/// The outermost shape of a value, for error reports.
fn value_shape(v: &InputValue) -> (r: ValueShape)
    ensures
        r == shape_of(*v),
{
    match v {
        InputValue::Field(_) => ValueShape::Field,
        InputValue::Boolean(_) => ValueShape::Boolean,
        InputValue::Array(_) => ValueShape::Array,
    }
}

/// Whether the shape of `v` matches the declared type `t`.
#[verifier::loop_isolation(false)]
fn check_value(v: &InputValue, t: &AbiType) -> (r: bool)
    ensures
        r == value_matches(*v, *t),
    decreases t,
{
    match t {
        AbiType::Field => matches!(v, InputValue::Field(_)),
        AbiType::Boolean => matches!(v, InputValue::Boolean(_)),
        AbiType::Array { length, element } => match v {
            InputValue::Array(items) => {
                if items.len() as u64 != *length {
                    return false;
                }
                let mut i: usize = 0;
                while i < items.len()
                    invariant
                        i <= items@.len(),
                        forall|j: int| 0 <= j < i ==> value_matches(items@[j], *t->element),
                    decreases items@.len() - i,
                {
                    if !check_value(&items[i], element) {
                        assert(!value_matches(items@[i as int], *t->element));
                        assert(!value_matches(*v, *t));
                        return false;
                    }
                    i = i + 1;
                }
                true
            },
            _ => false,
        },
    }
}

/// Appends the canonical encoding of `v` at type `t` to `out`.
#[verifier::loop_isolation(false)]
fn encode_value_into(v: &InputValue, t: &AbiType, out: &mut Vec<FieldElement>)
    ensures
        final(out)@ == old(out)@ + encode_value(*v, *t),
    decreases t,
{
    let ghost base = out@;
    match t {
        AbiType::Field => match v {
            InputValue::Field(x) => {
                out.push(*x);
                assert(out@ =~= base + encode_value(*v, *t));
            },
            _ => {
                assert(out@ =~= base + encode_value(*v, *t));
            },
        },
        AbiType::Boolean => match v {
            InputValue::Boolean(b) => {
                out.push(if *b { 1 } else { 0 });
                assert(out@ =~= base + encode_value(*v, *t));
            },
            _ => {
                assert(out@ =~= base + encode_value(*v, *t));
            },
        },
        AbiType::Array { length, element } => match v {
            InputValue::Array(items) => {
                proof {
                    assert(items@.skip(0) =~= items@);
                }
                let mut i: usize = 0;
                while i < items.len()
                    invariant
                        i <= items@.len(),
                        base + encode_items(items@, *t->element) == out@ + encode_items(
                            items@.skip(i as int),
                            *t->element,
                        ),
                    decreases items@.len() - i,
                {
                    let ghost before = out@;
                    let ghost rest = items@.skip(i as int);
                    encode_value_into(&items[i], element, out);
                    proof {
                        assert(rest[0] == items@[i as int]);
                        assert(rest.drop_first() =~= items@.skip(i as int + 1));
                        assert(encode_items(rest, *t->element) == encode_value(
                            items@[i as int],
                            *t->element,
                        ) + encode_items(items@.skip(i as int + 1), *t->element));
                        assert(before + (encode_value(items@[i as int], *t->element)
                            + encode_items(items@.skip(i as int + 1), *t->element)) =~= out@
                            + encode_items(items@.skip(i as int + 1), *t->element));
                    }
                    i = i + 1;
                }
                proof {
                    assert(encode_items(items@.skip(items@.len() as int), *t->element)
                        =~= Seq::<FieldElement>::empty());
                    assert(out@ + Seq::<FieldElement>::empty() =~= out@);
                    assert(out@ =~= base + encode_value(*v, *t));
                }
            },
            _ => {
                assert(out@ =~= base + encode_value(*v, *t));
            },
        },
    }
}

/// The entry supplied for `name`, if any: the first of that name.
#[verifier::loop_isolation(false)]
fn lookup_entry<'a>(entries: &'a Vec<(String, InputValue)>, name: &String) -> (r: Option<
    &'a InputValue,
>)
    ensures
        match r {
            Some(v) => lookup_value(entries@, name@) == Some(*v),
            None => lookup_value(entries@, name@) is None,
        },
{
    proof {
        assert(entries@.skip(0) =~= entries@);
    }
    let mut i: usize = 0;
    while i < entries.len()
        invariant
            i <= entries@.len(),
            lookup_value(entries@, name@) == lookup_value(entries@.skip(i as int), name@),
        decreases entries@.len() - i,
    {
        let ghost rest = entries@.skip(i as int);
        proof {
            assert(rest[0] == entries@[i as int]);
            assert(rest.drop_first() =~= entries@.skip(i as int + 1));
        }
        if entries[i].0 == *name {
            return Some(&entries[i].1);
        }
        i = i + 1;
    }
    None
}

impl Abi {
    /// The schema is well formed: parameter names are unique.
    pub open spec fn well_formed(self) -> bool {
        names_unique(self.parameters@)
    }

    /// Derives the public view of this schema: the public-tagged
    /// parameters, in declaration order, plus the return slot exactly
    /// when it is public.  A schema in which two parameters share a
    /// name is malformed and rejected; that indicates an upstream
    /// compiler defect, not a runtime input error.
    pub fn public_abi(self) -> (r: Result<Abi, SchemaError>)
        ensures
            self.well_formed() ==> (r matches Ok(view) && view.parameters@ == public_params(
                self.parameters@,
            ) && view.return_type == public_return(self.return_type)),
            !self.well_formed() ==> (r matches Err(e) && e matches SchemaError::DuplicateParameter {
                name,
            } && (exists|i: int, j: int|
                0 <= i < j < self.parameters@.len() && self.parameters@[i].name@
                    == self.parameters@[j].name@ && name@ == self.parameters@[j].name@)),
    {
        let n = self.parameters.len();
        let mut j: usize = 1;
        while j < n
            invariant
                n == self.parameters@.len(),
                1 <= j || n == 0,
                j <= n || n == 0,
                forall|a: int, b: int| 0 <= a < b < j ==> self.parameters@[a].name@ != self.parameters@[b].name@,
            decreases n - j,
        {
            let mut i: usize = 0;
            while i < j
                invariant
                    n == self.parameters@.len(),
                    i <= j < n,
                    forall|a: int| 0 <= a < i ==> self.parameters@[a].name@ != self.parameters@[j as int].name@,
                decreases j - i,
            {
                if self.parameters[i].name == self.parameters[j].name {
                    return Err(SchemaError::DuplicateParameter {
                        name: self.parameters[j].name.clone(),
                    });
                }
                i = i + 1;
            }
            j = j + 1;
        }
        assert(names_unique(self.parameters@));
        let ghost orig = self.parameters@;
        let mut rest = self.parameters;
        let mut kept: Vec<AbiParameter> = Vec::new();
        proof {
            assert(kept@ + public_params(rest@) =~= public_params(orig));
        }
        while rest.len() > 0
            invariant
                kept@ + public_params(rest@) == public_params(orig),
            decreases rest@.len(),
        {
            let ghost before = rest@;
            let p = rest.remove(0);
            proof {
                assert(rest@ =~= before.drop_first());
            }
            match p.visibility {
                AbiVisibility::Public => {
                    kept.push(p);
                    proof {
                        assert(public_params(before) == seq![before[0]] + public_params(
                            before.drop_first(),
                        ));
                        assert(kept@ + public_params(rest@) =~= public_params(orig));
                    }
                },
                AbiVisibility::Private => {
                    proof {
                        assert(public_params(before) == public_params(before.drop_first()));
                    }
                },
            }
        }
        proof {
            assert(public_params(rest@) =~= Seq::<AbiParameter>::empty());
            assert(kept@ =~= public_params(orig));
        }
        let ret = match self.return_type {
            Some(rt) => match rt.visibility {
                AbiVisibility::Public => Some(rt),
                AbiVisibility::Private => None,
            },
            None => None,
        };
        Ok(Abi { parameters: kept, return_type: ret })
    }

    /// Encodes the named values, plus an optional return value,
    /// against this public view: one or more field elements per
    /// parameter, in declaration order, then the encoded return value
    /// exactly when the view declares a public return slot.  The
    /// first parameter without a value, or with a value of the wrong
    /// shape, is reported by name; a supplied return value is ignored
    /// when no public return slot is declared.
    #[verifier::loop_isolation(false)]
    pub fn encode(
        &self,
        entries: &Vec<(String, InputValue)>,
        return_value: Option<InputValue>,
    ) -> (r: Result<Vec<FieldElement>, AbiError>)
        ensures
            (match spec_encode(*self, entries@, return_value) {
                Ok(fields) => r matches Ok(v) && v@ == fields,
                Err(e) => r matches Err(a) && a == e,
            }),
    {
        let ghost params = self.parameters@;
        let mut out: Vec<FieldElement> = Vec::new();
        proof {
            assert(params.skip(0) =~= params);
            let r0 = encode_params(params, entries@);
            if r0 is Ok {
                assert(Seq::<FieldElement>::empty() + r0->Ok_0 =~= r0->Ok_0);
            }
        }
        let mut i: usize = 0;
        while i < self.parameters.len()
            invariant
                i <= params.len(),
                encode_params(params, entries@) == (match encode_params(
                    params.skip(i as int),
                    entries@,
                ) {
                    Ok(rest) => Ok::<Seq<FieldElement>, AbiError>(out@ + rest),
                    Err(e) => Err::<Seq<FieldElement>, AbiError>(e),
                }),
            decreases params.len() - i,
        {
            let ghost rest_params = params.skip(i as int);
            proof {
                assert(rest_params[0] == params[i as int]);
                assert(rest_params.drop_first() =~= params.skip(i as int + 1));
            }
            let p = &self.parameters[i];
            match lookup_entry(entries, &p.name) {
                None => {
                    return Err(AbiError::MissingInput { name: p.name.clone() });
                },
                Some(v) => {
                    if !check_value(v, &p.typ) {
                        return Err(
                            AbiError::TypeMismatch {
                                name: p.name.clone(),
                                expected: copy_type(&p.typ),
                                actual: value_shape(v),
                            },
                        );
                    }
                    let ghost before = out@;
                    encode_value_into(v, &p.typ, &mut out);
                    proof {
                        let r_next = encode_params(params.skip(i as int + 1), entries@);
                        if r_next is Ok {
                            assert(before + (encode_value(*v, p.typ) + r_next->Ok_0) =~= out@
                                + r_next->Ok_0);
                        }
                    }
                },
            }
            i = i + 1;
        }
        proof {
            assert(params.skip(params.len() as int) =~= Seq::<AbiParameter>::empty());
            assert(out@ + Seq::<FieldElement>::empty() =~= out@);
        }
        match &self.return_type {
            None => Ok(out),
            Some(rt) => match rt.visibility {
                AbiVisibility::Private => Ok(out),
                AbiVisibility::Public => match return_value {
                    None => Err(AbiError::MissingReturn),
                    Some(rv) => {
                        if !check_value(&rv, &rt.abi_type) {
                            return Err(
                                AbiError::ReturnTypeMismatch {
                                    expected: copy_type(&rt.abi_type),
                                    actual: value_shape(&rv),
                                },
                            );
                        }
                        encode_value_into(&rv, &rt.abi_type, &mut out);
                        Ok(out)
                    },
                },
            },
        }
    }
}

} // verus!
