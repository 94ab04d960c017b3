//! The contracts the walk reads, as plain values: the verbs, an endpoint's
//! self-description and its per-verb actions, and a binding of the root space.
//! A host converts its kernel's descriptions into these.
use vstd::prelude::*;

verus! {

/// The request verbs.
#[derive(Clone, Copy, Debug, PartialEq, Eq, Structural, Hash)]
pub enum Verb {
    /// Read a resource's representation.
    Source,
    /// Write or replace a resource's representation.
    Sink,
    /// Test for a resource's existence.
    Exists,
    /// Remove a resource.
    Delete,
    /// Read a resource's self-description.
    Meta,
}

/// Whether responses to a verb are eligible for caching (the read-only verbs).
pub open spec fn cacheable_verb(v: Verb) -> bool {
    v == Verb::Source || v == Verb::Exists || v == Verb::Meta
}

/// Whether a verb may mutate underlying state.
pub open spec fn mutating_verb(v: Verb) -> bool {
    v == Verb::Sink || v == Verb::Delete
}

/// The lower-case name a report line prints for a verb.
pub open spec fn verb_label(v: Verb) -> Seq<char> {
    match v {
        Verb::Source => "source"@,
        Verb::Sink => "sink"@,
        Verb::Exists => "exists"@,
        Verb::Delete => "delete"@,
        Verb::Meta => "meta"@,
    }
}

/// The variant name of a verb, as code names it (`Verb::Source`).
pub open spec fn verb_variant(v: Verb) -> Seq<char> {
    match v {
        Verb::Source => "Source"@,
        Verb::Sink => "Sink"@,
        Verb::Exists => "Exists"@,
        Verb::Delete => "Delete"@,
        Verb::Meta => "Meta"@,
    }
}

impl Verb {
    /// Whether responses to this verb are eligible for caching (`Source`,
    /// `Exists`, `Meta`).
    pub fn is_cacheable(self) -> (r: bool)
        ensures
            r == cacheable_verb(self),
    {
        match self {
            Verb::Source | Verb::Exists | Verb::Meta => true,
            _ => false,
        }
    }

    /// Whether this verb may mutate underlying state (`Sink`, `Delete`).
    pub fn is_mutating(self) -> (r: bool)
        ensures
            r == mutating_verb(self),
    {
        match self {
            Verb::Sink | Verb::Delete => true,
            _ => false,
        }
    }

    /// The lower-case name a report line prints.
    pub fn label(self) -> (r: &'static str)
        ensures
            r@ == verb_label(self),
    {
        match self {
            Verb::Source => "source",
            Verb::Sink => "sink",
            Verb::Exists => "exists",
            Verb::Delete => "delete",
            Verb::Meta => "meta",
        }
    }

    /// The variant name, as code names it.
    pub fn variant(self) -> (r: &'static str)
        ensures
            r@ == verb_variant(self),
    {
        match self {
            Verb::Source => "Source",
            Verb::Sink => "Sink",
            Verb::Exists => "Exists",
            Verb::Delete => "Delete",
            Verb::Meta => "Meta",
        }
    }
}

/// Where an input's value comes from.
#[derive(Clone, Copy, Debug, PartialEq, Eq, Structural, Hash)]
pub enum InputSource {
    /// A by-value argument supplied alongside the request.
    Argument,
    /// A variable captured from the resource identifier by the resolving grammar.
    Binding,
}

/// One named input an action accepts.
#[derive(Clone, Debug)]
pub struct ArgSpec {
    /// The argument name.
    pub name: String,
    /// Whether the argument is required.
    pub required: bool,
    /// Whether the value arrives as a by-value argument or a grammar binding.
    pub source: InputSource,
    /// The RDF class or XSD datatype IRI of the value, if declared.
    pub class: Option<String>,
    /// The value assumed when the argument is omitted.
    pub default: Option<String>,
    /// The closed set of accepted values, when the argument is an enumeration.
    pub one_of: Vec<String>,
}

impl ArgSpec {
    /// An optional by-value input named `name`, with no class, default or values.
    pub fn new(name: &str) -> (r: ArgSpec)
        ensures
            r.name@ == name@,
            !r.required,
            r.source == InputSource::Argument,
            r.class is None,
            r.default is None,
            r.one_of@.len() == 0,
    {
        ArgSpec {
            name: String::from_str(name),
            required: false,
            source: InputSource::Argument,
            class: None,
            default: None,
            one_of: Vec::new(),
        }
    }

    /// The same input with its class (an RDF class or XSD datatype IRI).
    pub fn class(self, class: &str) -> (r: ArgSpec)
        ensures
            r == (ArgSpec { class: r.class, ..self }),
            r.class matches Some(c) && c@ == class@,
    {
        ArgSpec { class: Some(String::from_str(class)), ..self }
    }

    /// The same input with the value assumed when it is omitted.
    pub fn default_value(self, value: &str) -> (r: ArgSpec)
        ensures
            r == (ArgSpec { default: r.default, ..self }),
            r.default matches Some(d) && d@ == value@,
    {
        ArgSpec { default: Some(String::from_str(value)), ..self }
    }

    /// The same input restricted to a closed set of values, in order.
    pub fn one_of(self, values: Vec<String>) -> (r: ArgSpec)
        ensures
            r == (ArgSpec { one_of: values, ..self }),
    {
        ArgSpec { one_of: values, ..self }
    }

    /// The same input, required.
    pub fn required(self) -> (r: ArgSpec)
        ensures
            r == (ArgSpec { required: true, ..self }),
    {
        ArgSpec { required: true, ..self }
    }

    /// The same input, captured from the resource identifier.
    pub fn binding(self) -> (r: ArgSpec)
        ensures
            r == (ArgSpec { source: InputSource::Binding, ..self }),
    {
        ArgSpec { source: InputSource::Binding, ..self }
    }
}

/// The contract of one verb of an endpoint.
#[derive(Clone, Debug)]
pub struct ActionSpec {
    /// The verb this contract applies to.
    pub verb: Verb,
    /// The named inputs this verb reads.
    pub inputs: Vec<ArgSpec>,
    /// The representation types this verb can produce.
    pub outputs: Vec<String>,
    /// The capability scopes invoking this verb requires.
    pub requires: Vec<String>,
}

/// An endpoint's self-description: the flat declaration as authored, and the
/// per-verb view the kernel normalizes it to (`action_specs`: one per declared
/// verb, `Meta` excluded).
#[derive(Clone, Debug)]
pub struct Description {
    /// The endpoint identifier.
    pub id: String,
    /// The verbs this endpoint answers.
    pub verbs: Vec<Verb>,
    /// The flat capability scopes.
    pub requires: Vec<String>,
    /// The flat inputs.
    pub inputs: Vec<ArgSpec>,
    /// The explicitly declared per-verb contracts.
    pub actions: Vec<ActionSpec>,
    /// The normalized per-verb view.
    pub action_specs: Vec<ActionSpec>,
}

/// One binding of the root space: the grammar's pattern and the bound
/// endpoint's name.
#[derive(Clone, Debug)]
pub struct Entry {
    /// An exact IRI, or a template like `urn:file:{path}`.
    pub pattern: String,
    /// The bound endpoint's name.
    pub endpoint: String,
}

} // verus!
