//! Parsing a declared RDF face and reading it for the two graph checks: blank
//! nodes (`SKOLEM-RDF`) and the terms it uses (`VOCABULARY`).
//!
//! Public on purpose: [`parse`] + [`terms`] + [`is_defined`] are exactly what
//! `VOCABULARY` runs, so a module can reproduce the check by hand over any bytes
//! and pin its undefined terms as an exact list.
use crate::text::{
    append, ascending, before_first, cat, has_char, insert_sorted, lower, lowered, owned,
    prefix_before, same, starts_with, trim, trimmed, views,
};
use oxrdf::{NamedOrBlankNode, Quad, Term};
use oxrdfio::{RdfFormat, RdfParser};
use vstd::prelude::*;

verus! {

#[verifier::external_type_specification]
#[verifier::external_body]
pub struct ExRdfFormat(RdfFormat);

#[verifier::external_type_specification]
#[verifier::external_body]
pub struct ExQuad(Quad);

/// One node of a parsed graph, as the checks read it.
#[derive(Clone, Debug, PartialEq, Eq)]
pub enum Node {
    /// A named node: its IRI.
    Iri(String),
    /// A blank node: its `_:label` form.
    Blank(String),
    /// A literal, in its N-Triples form.
    Literal(String),
}

/// One triple of a parsed graph (a quad's graph name is dropped: the checks are
/// about terms and nodes, not graphs).
#[derive(Clone, Debug, PartialEq, Eq)]
pub struct Triple {
    /// The subject (an IRI or a blank node).
    pub subject: Node,
    /// The predicate's IRI.
    pub predicate: String,
    /// The object.
    pub object: Node,
}

/// The media types this crate treats as RDF faces. Parameters (`;charset=utf-8`)
/// are ignored when matching.
pub const RDF_FACES: [&'static str; 6] = [
    "text/turtle",
    "application/ld+json",
    "application/rdf+xml",
    "application/n-triples",
    "application/n-quads",
    "application/trig",
];

/// The namespaces a graph face may use freely beside the shared vocabulary's own.
pub const WELL_KNOWN_NAMESPACES: [&'static str; 12] = [
    "http://www.w3.org/1999/02/22-rdf-syntax-ns#",
    "http://www.w3.org/2000/01/rdf-schema#",
    "http://www.w3.org/2001/XMLSchema#",
    "http://www.w3.org/2002/07/owl#",
    "http://purl.org/dc/terms/",
    "http://xmlns.com/foaf/0.1/",
    "https://schema.org/",
    "http://schema.org/",
    "http://www.w3.org/ns/prov#",
    "http://www.w3.org/2002/12/cal/ical#",
    "http://www.w3.org/2004/02/skos/core#",
    "http://www.w3.org/ns/shacl#",
];

/// [`RDF_FACES`], as characters.
pub open spec fn rdf_faces() -> Seq<Seq<char>> {
    seq![
        "text/turtle"@,
        "application/ld+json"@,
        "application/rdf+xml"@,
        "application/n-triples"@,
        "application/n-quads"@,
        "application/trig"@,
    ]
}

/// [`WELL_KNOWN_NAMESPACES`], as characters.
pub open spec fn well_known_namespaces() -> Seq<Seq<char>> {
    seq![
        "http://www.w3.org/1999/02/22-rdf-syntax-ns#"@,
        "http://www.w3.org/2000/01/rdf-schema#"@,
        "http://www.w3.org/2001/XMLSchema#"@,
        "http://www.w3.org/2002/07/owl#"@,
        "http://purl.org/dc/terms/"@,
        "http://xmlns.com/foaf/0.1/"@,
        "https://schema.org/"@,
        "http://schema.org/"@,
        "http://www.w3.org/ns/prov#"@,
        "http://www.w3.org/2002/12/cal/ical#"@,
        "http://www.w3.org/2004/02/skos/core#"@,
        "http://www.w3.org/ns/shacl#"@,
    ]
}

/// Whether `iri` lies under one of `namespaces`.
pub open spec fn under_any(iri: Seq<char>, namespaces: Seq<Seq<char>>) -> bool {
    exists|i: int| 0 <= i < namespaces.len() && #[trigger] namespaces[i].is_prefix_of(iri)
}

/// A media type without its parameters, trimmed and lower-cased.
pub open spec fn bare(media_type: Seq<char>) -> Seq<char> {
    lowered(trimmed(before_first(media_type, ';')))
}

/// The IRI of `rdf:type`.
pub open spec fn rdf_type() -> Seq<char> {
    "http://www.w3.org/1999/02/22-rdf-syntax-ns#type"@
}

/// The shared vocabulary's namespace.
pub open spec fn vocab_ns() -> Seq<char> {
    "https://ikigai-rs.dev/ns#"@
}

/// Whether `iri` lies under one of [`WELL_KNOWN_NAMESPACES`].
pub fn is_well_known(iri: &str) -> (r: bool)
    ensures
        r == under_any(iri@, well_known_namespaces()),
{
    let mut i: usize = 0;
    while i < 12
        invariant
            i <= 12,
            forall|j: int| 0 <= j < i ==> !(#[trigger] well_known_namespaces()[j]).is_prefix_of(
                iri@,
            ),
        decreases 12 - i,
    {
        let ns = WELL_KNOWN_NAMESPACES[i];
        assert(ns@ == well_known_namespaces()[i as int]);
        if starts_with(iri, ns) {
            return true;
        }
        i = i + 1;
    }
    false
}

/// The media type of `media_type` without its parameters, lower-cased — what
/// [`RDF_FACES`] and a declared output are compared on.
pub fn bare_media_type(media_type: &str) -> (r: String)
    ensures
        r@ == bare(media_type@),
{
    lower(trim(prefix_before(media_type, ';')))
}

/// Whether a bare media type is one of [`RDF_FACES`].
pub fn is_rdf_bare(bare: &str) -> (r: bool)
    ensures
        r == rdf_faces().contains(bare@),
{
    let mut i: usize = 0;
    while i < 6
        invariant
            i <= 6,
            forall|j: int| 0 <= j < i ==> rdf_faces()[j] != bare@,
        decreases 6 - i,
    {
        let face = RDF_FACES[i];
        assert(face@ == rdf_faces()[i as int]);
        if same(face, bare) {
            return true;
        }
        i = i + 1;
    }
    false
}

/// Whether `media_type` (parameters ignored) is one of [`RDF_FACES`].
pub fn is_rdf_face(media_type: &str) -> (r: bool)
    ensures
        r == rdf_faces().contains(bare(media_type@)),
{
    let b = bare_media_type(media_type);
    is_rdf_bare(b.as_str())
}

/// Whether oxrdfio knows an RDF serialization by this media type.
pub uninterp spec fn rdf_media_known(media_type: Seq<char>) -> bool;

/// The `<iri>` form of an IRI.
pub open spec fn bracketed(iri: Seq<char>) -> Seq<char> {
    seq!['<'] + iri + seq!['>']
}

/// How the shape of a graph begins to show a blank node: `_:`, then the node's
/// number in order of first appearance in the document (0, 1, …). The parser
/// invents labels at random, but which places hold the same blank node is the
/// document's.
pub open spec fn blank_shown() -> Seq<char> {
    seq!['_', ':']
}

/// Whether a part of a shape shows a blank node.
pub open spec fn shows_blank(s: Seq<char>) -> bool {
    blank_shown().is_prefix_of(s)
}

/// Whether the part `s` of a shape shows the node `n`: an IRI as `<iri>`, a
/// literal in its N-Triples form (which begins with a double quote), a blank
/// node as `_:` and its number.
pub open spec fn shows(n: Node, s: Seq<char>) -> bool {
    match n {
        Node::Iri(i) => s == bracketed(i@),
        Node::Blank(_) => shows_blank(s),
        Node::Literal(l) => s == l@ && l@.len() > 0 && l@[0] == '"',
    }
}

/// A triple's subject (`object == false`) or object.
pub open spec fn node_at(t: Triple, object: bool) -> Node {
    if object {
        t.object
    } else {
        t.subject
    }
}

/// A shape's subject part (`object == false`) or object part.
pub open spec fn part_at(s: (Seq<char>, Seq<char>, Seq<char>), object: bool) -> Seq<char> {
    if object {
        s.2
    } else {
        s.0
    }
}

/// Whether the triple `t` shows as the shape `s`: subject, predicate IRI, object.
pub open spec fn shows_triple(t: Triple, s: (Seq<char>, Seq<char>, Seq<char>)) -> bool {
    &&& shows(t.subject, s.0)
    &&& t.predicate@ == s.1
    &&& shows(t.object, s.2)
}

/// Whether the triples `v` read as the graph `g`: one triple per entry, in
/// order, each showing as its entry; and two places that show the same blank
/// node hold the same label.
pub open spec fn reads_as(v: Seq<Triple>, g: Seq<(Seq<char>, Seq<char>, Seq<char>)>) -> bool {
    &&& v.len() == g.len()
    &&& forall|i: int| 0 <= i < v.len() ==> shows_triple(#[trigger] v[i], g[i])
    &&& forall|i: int, j: int, a: bool, b: bool|
        #![trigger part_at(g[i], a), part_at(g[j], b)]
        0 <= i < g.len() && 0 <= j < g.len() && shows_blank(part_at(g[i], a)) && part_at(g[i], a)
            == part_at(g[j], b) ==> blank_label(node_at(v[i], a)) == blank_label(node_at(v[j], b))
}

/// The blank nodes a graph's shape shows, each once (as `_:` and its number).
pub open spec fn blank_parts(g: Seq<(Seq<char>, Seq<char>, Seq<char>)>) -> Set<Seq<char>> {
    Set::new(
        |p: Seq<char>|
            exists|i: int, a: bool| 0 <= i < g.len() && #[trigger] part_at(g[i], a) == p && shows_blank(p),
    )
}

/// What oxrdfio reads from `bytes` in the serialization the media type `bare`
/// names (`RdfFormat::from_media_type`, then `RdfParser::for_slice`): the
/// triples in order, each as subject, predicate IRI and object, shown as
/// [`shows`] says (a blank node by its number in order of first appearance),
/// graph names dropped; `None` when the bytes do not parse.
pub uninterp spec fn rdf_graph(bare: Seq<char>, bytes: Seq<u8>) -> Option<
    Seq<(Seq<char>, Seq<char>, Seq<char>)>,
>;

/// `RdfFormat::from_media_type(bare)`, then `RdfParser::from_format(..).for_slice(bytes)`
/// collected, each quad as a [`Triple`] (IRIs as strings, blank nodes in their
/// `_:label` form, literals in their N-Triples form, the graph name dropped).
/// `None` when oxrdfio knows no serialization by that media type (it knows the six
/// RDF faces); else the triples, which read as what oxrdfio reads (a blank node
/// keeps one label wherever the document has it), or the first syntax error's
/// message. Which labels the parser invents is not stated (they are random), nor
/// that two different blank nodes never draw the same one (a matter of chance).
#[verifier::external_body]
fn read_graph(bare: &str, bytes: &[u8]) -> (r: Option<Result<Vec<Triple>, String>>)
    ensures
        r is Some == rdf_media_known(bare@),
        rdf_faces().contains(bare@) ==> r is Some,
        r matches Some(Ok(v)) ==> (rdf_graph(bare@, bytes@) matches Some(g) && reads_as(v@, g)),
        r matches Some(Err(_)) ==> rdf_graph(bare@, bytes@) is None,
{
    let format = RdfFormat::from_media_type(bare)?;
    Some(RdfParser::from_format(format).for_slice(bytes).collect::<Result<Vec<Quad>, _>>()
        .map(|v| v.into_iter().map(|q| Triple {
        subject: match q.subject {
            NamedOrBlankNode::NamedNode(n) => Node::Iri(n.into_string()),
            NamedOrBlankNode::BlankNode(b) => Node::Blank(b.to_string()),
        },
        predicate: q.predicate.into_string(),
        object: match q.object {
            Term::NamedNode(n) => Node::Iri(n.into_string()),
            Term::BlankNode(b) => Node::Blank(b.to_string()),
            Term::Literal(l) => Node::Literal(l.to_string()),
        },
    }).collect()).map_err(|e| e.to_string()))
}

/// `oxrdf::vocab::rdf::TYPE`, the IRI of `rdf:type`.
#[verifier::external_body]
fn rdf_type_iri() -> (r: &'static str)
    ensures
        r@ == rdf_type(),
{
    oxrdf::vocab::rdf::TYPE.as_str()
}

/// `ikigai_vocab::NS`, the shared vocabulary's namespace.
#[verifier::external_body]
pub fn vocabulary_namespace() -> (r: &'static str)
    ensures
        r@ == vocab_ns(),
{
    ikigai_vocab::NS
}

/// Whether a graph has a triple whose subject is the IRI `iri`.
pub open spec fn has_subject(g: Seq<(Seq<char>, Seq<char>, Seq<char>)>, iri: Seq<char>) -> bool {
    exists|i: int| 0 <= i < g.len() && (#[trigger] g[i]).0 == bracketed(iri)
}

/// Whether the Turtle `bytes` parse, to a graph with `ik:Endpoint` as a subject.
pub open spec fn parses_defining_endpoint(bytes: Seq<u8>) -> bool {
    rdf_graph("text/turtle"@, bytes) matches Some(g) && has_subject(g, vocab_ns() + "Endpoint"@)
}

/// `ikigai_vocab::VOCABULARY`, the shared vocabulary as Turtle, as bytes. Its
/// content is the crate's data and is not stated beyond two facts its source and
/// tests show: it parses as Turtle (ikigai-vocab's tests parse it with oxttl,
/// which oxrdfio reads Turtle with), and it defines `ik:Endpoint`.
#[verifier::external_body]
fn vocabulary_turtle() -> (r: &'static [u8])
    ensures
        parses_defining_endpoint(r@),
{
    ikigai_vocab::VOCABULARY.as_bytes()
}

/// The message for a media type oxrdfio cannot parse.
pub open spec fn unknown_format_message(bare: Seq<char>) -> Seq<char> {
    "`"@ + bare + "` is not an RDF media type this crate can parse"@
}

/// The beginning of the message for bytes that do not parse.
pub open spec fn syntax_message_head(bare: Seq<char>) -> Seq<char> {
    "does not parse as "@ + bare + ": "@
}

/// What parsing `bytes` as the media type `bare` gives: for a media type oxrdfio
/// knows, the triples that read as what it reads, or, when the bytes do not
/// parse, a message that names the media type; for any other, the message that
/// says so.
pub open spec fn parsed(bare: Seq<char>, bytes: Seq<u8>, r: Result<Vec<Triple>, String>) -> bool {
    match r {
        Ok(v) => rdf_media_known(bare) && (rdf_graph(bare, bytes) matches Some(g) && reads_as(v@, g)),
        Err(m) => if rdf_media_known(bare) {
            rdf_graph(bare, bytes) is None && syntax_message_head(bare).is_prefix_of(m@)
        } else {
            m@ == unknown_format_message(bare)
        },
    }
}

/// [`parse`] for a media type already bare.
pub fn parse_bare(bare: &str, bytes: &[u8]) -> (r: Result<Vec<Triple>, String>)
    ensures
        parsed(bare@, bytes@, r),
        rdf_faces().contains(bare@) ==> rdf_media_known(bare@),
{
    match read_graph(bare, bytes) {
        None => {
            let mut msg = owned("`");
            append(&mut msg, bare);
            append(&mut msg, "` is not an RDF media type this crate can parse");
            Err(msg)
        },
        Some(Ok(triples)) => Ok(triples),
        Some(Err(e)) => {
            let mut msg = owned("does not parse as ");
            append(&mut msg, bare);
            append(&mut msg, ": ");
            let ghost head = msg@;
            append(&mut msg, e.as_str());
            assert(head.is_prefix_of(msg@));
            Err(msg)
        },
    }
}

/// Parse `bytes` as the RDF serialization `media_type` names, into triples (a
/// quad's graph name is dropped). Parameters of the media type are ignored. A
/// media type oxrdfio does not know is refused with its own message; bytes that
/// do not parse, with a message that names the bare media type; else the result
/// holds one triple per quad oxrdfio reads, in order, equal to it but for the
/// labels of blank nodes.
pub fn parse(media_type: &str, bytes: &[u8]) -> (r: Result<Vec<Triple>, String>)
    ensures
        parsed(bare(media_type@), bytes@, r),
{
    let b = bare_media_type(media_type);
    parse_bare(b.as_str(), bytes)
}

/// The blank-node label a node carries, if it is a blank node.
pub open spec fn blank_label(n: Node) -> Option<Seq<char>> {
    match n {
        Node::Blank(l) => Some(l@),
        _ => None,
    }
}

/// Whether the triple has the blank node `label` as subject or object.
pub open spec fn has_blank(t: Triple, label: Seq<char>) -> bool {
    blank_label(t.subject) == Some(label) || blank_label(t.object) == Some(label)
}

/// Whether the triple uses `term` as vocabulary: its predicate, or the class it
/// types its subject with (an IRI in object position of `rdf:type`).
pub open spec fn uses_term(t: Triple, term: Seq<char>) -> bool {
    ||| t.predicate@ == term
    ||| (t.predicate@ == rdf_type() && (t.object matches Node::Iri(c) && c@ == term))
}

/// Adds the label of `n`, when it is a blank node, to `found`.
fn note_blank(found: &mut Vec<String>, n: &Node)
    requires
        ascending(views(old(found)@)),
    ensures
        ascending(views(final(found)@)),
        views(final(found)@).to_set() == match blank_label(*n) {
            Some(l) => views(old(found)@).to_set().insert(l),
            None => views(old(found)@).to_set(),
        },
{
    if let Node::Blank(l) = n {
        insert_sorted(found, l.clone());
    }
}

/// The blank nodes in `triples`, as their `_:label` forms, each once, in sorted
/// order. A skolemized graph has none.
pub fn blank_nodes(triples: &[Triple]) -> (r: Vec<String>)
    ensures
        ascending(views(r@)),
        forall|l: Seq<char>|
            #![trigger views(r@).to_set().contains(l)]
            views(r@).to_set().contains(l) <==> exists|i: int|
                0 <= i < triples@.len() && #[trigger] has_blank(triples@[i], l),
{
    let mut found: Vec<String> = Vec::new();
    let mut i: usize = 0;
    proof {
        assert(views(found@) =~= Seq::<Seq<char>>::empty());
    }
    while i < triples.len()
        invariant
            i <= triples@.len(),
            ascending(views(found@)),
            forall|l: Seq<char>|
                #![trigger views(found@).to_set().contains(l)]
                views(found@).to_set().contains(l) <==> exists|j: int|
                    0 <= j < i && #[trigger] has_blank(triples@[j], l),
        decreases triples@.len() - i,
    {
        let ghost before_set = views(found@).to_set();
        note_blank(&mut found, &triples[i].subject);
        note_blank(&mut found, &triples[i].object);
        proof {
            assert forall|l: Seq<char>| #[trigger] views(found@).to_set().contains(l) <==> exists|j: int|
                0 <= j < i + 1 && #[trigger] has_blank(triples@[j], l) by {
                if views(found@).to_set().contains(l) && !before_set.contains(l) {
                    assert(has_blank(triples@[i as int], l));
                }
                if exists|j: int| 0 <= j < i + 1 && #[trigger] has_blank(triples@[j], l) {
                    let j = choose|j: int| 0 <= j < i + 1 && #[trigger] has_blank(triples@[j], l);
                    if j < i {
                        assert(before_set.contains(l));
                    }
                }
            }
        }
        i = i + 1;
    }
    found
}

/// The vocabulary terms `triples` use: every predicate IRI, plus every IRI in
/// object position of `rdf:type` (a class), each once, in sorted order. Subjects
/// and other objects are data, not vocabulary.
pub fn terms(triples: &[Triple]) -> (r: Vec<String>)
    ensures
        ascending(views(r@)),
        forall|term: Seq<char>|
            #![trigger views(r@).to_set().contains(term)]
            views(r@).to_set().contains(term) <==> exists|i: int|
                0 <= i < triples@.len() && #[trigger] uses_term(triples@[i], term),
{
    let type_iri = rdf_type_iri();
    let mut used: Vec<String> = Vec::new();
    let mut i: usize = 0;
    proof {
        assert(views(used@) =~= Seq::<Seq<char>>::empty());
    }
    while i < triples.len()
        invariant
            i <= triples@.len(),
            type_iri@ == rdf_type(),
            ascending(views(used@)),
            forall|term: Seq<char>|
                #![trigger views(used@).to_set().contains(term)]
                views(used@).to_set().contains(term) <==> exists|j: int|
                    0 <= j < i && #[trigger] uses_term(triples@[j], term),
        decreases triples@.len() - i,
    {
        let ghost before_set = views(used@).to_set();
        let t = &triples[i];
        insert_sorted(&mut used, t.predicate.clone());
        let ghost mid_set = views(used@).to_set();
        let mut class_added = false;
        if same(t.predicate.as_str(), type_iri) {
            if let Node::Iri(c) = &t.object {
                insert_sorted(&mut used, c.clone());
                class_added = true;
            }
        }
        proof {
            assert forall|term: Seq<char>| #[trigger] views(used@).to_set().contains(term) <==> exists|j: int|
                0 <= j < i + 1 && #[trigger] uses_term(triples@[j], term) by {
                if views(used@).to_set().contains(term) && !before_set.contains(term) {
                    assert(uses_term(triples@[i as int], term));
                }
                if exists|j: int| 0 <= j < i + 1 && #[trigger] uses_term(triples@[j], term) {
                    let j = choose|j: int| 0 <= j < i + 1 && #[trigger] uses_term(triples@[j], term);
                    if j < i {
                        assert(before_set.contains(term));
                    } else {
                        assert(mid_set.contains(t.predicate@));
                    }
                }
            }
        }
        i = i + 1;
    }
    used
}

/// Whether the triple defines `term`: its subject is the IRI `term`, and `term`
/// lies under the shared vocabulary's namespace.
pub open spec fn defines(t: Triple, term: Seq<char>) -> bool {
    &&& vocab_ns().is_prefix_of(term)
    &&& t.subject matches Node::Iri(n) && n@ == term
}

/// Whether `terms` holds exactly the terms some triple of `triples` defines.
pub open spec fn terms_defined_by(terms: Seq<Seq<char>>, triples: Seq<Triple>) -> bool {
    forall|term: Seq<char>|
        #![trigger terms.to_set().contains(term)]
        terms.to_set().contains(term) <==> exists|i: int|
            0 <= i < triples.len() && #[trigger] defines(triples[i], term)
}

/// The terms a graph defines under the shared vocabulary's namespace: every
/// subject IRI under it, each once, in sorted order.
pub fn defined_terms(triples: &Vec<Triple>) -> (r: Vec<String>)
    ensures
        ascending(views(r@)),
        terms_defined_by(views(r@), triples@),
{
    let ns = vocabulary_namespace();
    let mut found: Vec<String> = Vec::new();
    proof {
        assert(views(found@) =~= Seq::<Seq<char>>::empty());
    }
    let mut i: usize = 0;
    while i < triples.len()
        invariant
            i <= triples@.len(),
            ns@ == vocab_ns(),
            ascending(views(found@)),
            terms_defined_by(views(found@), triples@.take(i as int)),
        decreases triples@.len() - i,
    {
        let ghost before_set = views(found@).to_set();
        let ghost t = triples@[i as int];
        let mut added = false;
        if let Node::Iri(n) = &triples[i].subject {
            if starts_with(n.as_str(), ns) {
                insert_sorted(&mut found, n.clone());
                added = true;
            }
        }
        proof {
            let prev = triples@.take(i as int);
            let next = triples@.take(i + 1);
            assert forall|term: Seq<char>|
                #![trigger views(found@).to_set().contains(term)]
                views(found@).to_set().contains(term) <==> exists|j: int|
                    0 <= j < next.len() && #[trigger] defines(next[j], term) by {
                if views(found@).to_set().contains(term) {
                    if before_set.contains(term) {
                        let j = choose|j: int| 0 <= j < prev.len() && #[trigger] defines(prev[j], term);
                        assert(next[j] == prev[j]);
                    } else {
                        assert(next[i as int] == t);
                        assert(defines(next[i as int], term));
                    }
                }
                if exists|j: int| 0 <= j < next.len() && #[trigger] defines(next[j], term) {
                    let j = choose|j: int| 0 <= j < next.len() && #[trigger] defines(next[j], term);
                    if j < i {
                        assert(prev[j] == next[j]);
                        assert(before_set.contains(term));
                    } else {
                        assert(next[j] == t);
                        assert(added);
                    }
                }
            }
        }
        i = i + 1;
    }
    proof {
        assert(triples@.take(triples@.len() as int) =~= triples@);
    }
    found
}

/// Whether a triple's shape uses `term` as vocabulary (see [`uses_term`]).
pub open spec fn shape_uses_term(s: (Seq<char>, Seq<char>, Seq<char>), term: Seq<char>) -> bool {
    ||| s.1 == term
    ||| (s.1 == rdf_type() && s.2 == bracketed(term))
}

/// Whether a triple's shape has a blank node as subject or object.
pub open spec fn shape_has_blank(s: (Seq<char>, Seq<char>, Seq<char>)) -> bool {
    shows_blank(s.0) || shows_blank(s.2)
}

/// Whether a triple's shape defines `term` (see [`defines`]).
pub open spec fn shape_defines(s: (Seq<char>, Seq<char>, Seq<char>), term: Seq<char>) -> bool {
    vocab_ns().is_prefix_of(term) && s.0 == bracketed(term)
}

/// The `<iri>` form determines the IRI.
proof fn lemma_bracketed_injective(a: Seq<char>, b: Seq<char>)
    requires
        bracketed(a) == bracketed(b),
    ensures
        a == b,
{
    assert(a =~= bracketed(a).subrange(1, bracketed(a).len() - 1));
    assert(b =~= bracketed(b).subrange(1, bracketed(b).len() - 1));
}

/// A part that shows a node shows `<iri>` exactly when the node is that IRI, and
/// shows a blank node exactly when the node is one.
proof fn lemma_shown(n: Node, s: Seq<char>, iri: Seq<char>)
    requires
        shows(n, s),
    ensures
        (s == bracketed(iri)) == (n matches Node::Iri(c) && c@ == iri),
        shows_blank(s) == (n is Blank),
{
    match n {
        Node::Iri(c) => {
            if s == bracketed(iri) {
                lemma_bracketed_injective(c@, iri);
            }
            assert(s[0] != blank_shown()[0]);
        },
        Node::Blank(_) => {
            assert(s[0] == blank_shown()[0]);
            assert(s[0] != bracketed(iri)[0]);
        },
        Node::Literal(l) => {
            assert(s[0] != bracketed(iri)[0]);
            assert(s[0] != blank_shown()[0]);
        },
    }
}

/// What a triple says of its terms, blank nodes and definitions, the shape it
/// shows as says too.
pub proof fn lemma_shape_reads(t: Triple, g: (Seq<char>, Seq<char>, Seq<char>), term: Seq<char>)
    requires
        shows_triple(t, g),
    ensures
        uses_term(t, term) == shape_uses_term(g, term),
        defines(t, term) == shape_defines(g, term),
        shape_has_blank(g) == (blank_label(t.subject) is Some || blank_label(t.object) is Some),
        shows_blank(g.0) == (blank_label(t.subject) is Some),
        shows_blank(g.2) == (blank_label(t.object) is Some),
{
    lemma_shown(t.subject, g.0, term);
    lemma_shown(t.object, g.2, term);
}

/// Whether `terms` is the vocabulary a graph defines: ascending, and holding
/// exactly the terms some triple of `g` defines.
pub open spec fn vocabulary_of(terms: Seq<Seq<char>>, g: Seq<(Seq<char>, Seq<char>, Seq<char>)>) -> bool {
    &&& ascending(terms)
    &&& forall|term: Seq<char>|
        #![trigger terms.to_set().contains(term)]
        terms.to_set().contains(term) <==> exists|i: int|
            0 <= i < g.len() && #[trigger] shape_defines(g[i], term)
}

/// Whether `terms` is the vocabulary the Turtle `bytes` define: they parse, and
/// `terms` is what their graph defines, `ik:Endpoint` among them.
pub open spec fn turtle_vocabulary(terms: Seq<Seq<char>>, bytes: Seq<u8>) -> bool {
    &&& rdf_graph("text/turtle"@, bytes) matches Some(g) && vocabulary_of(terms, g)
    &&& terms.contains(vocab_ns() + "Endpoint"@)
}

/// Whether `terms` is the vocabulary some Turtle defines, as [`vocabulary_terms`]
/// reads the bundled one.
pub open spec fn a_vocabulary(terms: Seq<Seq<char>>) -> bool {
    exists|bytes: Seq<u8>| #[trigger] turtle_vocabulary(terms, bytes)
}

/// The terms the shared vocabulary defines: every subject IRI of its Turtle that
/// lies under its namespace, each once, in sorted order ([`defined_terms`] of the
/// graph oxrdfio reads from the bundled Turtle, which parses).
pub fn vocabulary_terms() -> (r: Vec<String>)
    ensures
        ascending(views(r@)),
        forall|i: int| 0 <= i < r@.len() ==> vocab_ns().is_prefix_of(#[trigger] r@[i]@),
        views(r@).contains(vocab_ns() + "Endpoint"@),
        a_vocabulary(views(r@)),
{
    let bytes = vocabulary_turtle();
    let turtle = "text/turtle";
    proof {
        assert(rdf_faces()[0] == turtle@);
    }
    let triples = match parse_bare(turtle, bytes) {
        Ok(t) => t,
        Err(_) => {
            proof {
                assert(false);
            }
            return Vec::new();
        },
    };
    let found = defined_terms(&triples);
    let ghost g = rdf_graph(turtle@, bytes@)->Some_0;
    let ghost terms = views(found@);
    proof {
        assert forall|term: Seq<char>|
            #![trigger terms.to_set().contains(term)]
            terms.to_set().contains(term) <==> exists|i: int|
                0 <= i < g.len() && #[trigger] shape_defines(g[i], term) by {
            if terms.to_set().contains(term) {
                let j = choose|j: int| 0 <= j < triples@.len() && #[trigger] defines(triples@[j], term);
                lemma_shape_reads(triples@[j], g[j], term);
            }
            if exists|i: int| 0 <= i < g.len() && #[trigger] shape_defines(g[i], term) {
                let j = choose|i: int| 0 <= i < g.len() && #[trigger] shape_defines(g[i], term);
                lemma_shape_reads(triples@[j], g[j], term);
                assert(defines(triples@[j], term));
            }
        }
        let e = vocab_ns() + "Endpoint"@;
        let k = choose|k: int| 0 <= k < g.len() && (#[trigger] g[k]).0 == bracketed(e);
        assert(vocab_ns().is_prefix_of(e)) by {
            assert(e.subrange(0, vocab_ns().len() as int) =~= vocab_ns());
        }
        assert(shape_defines(g[k], e));
        assert(terms.to_set().contains(e));
        assert(terms.contains(e));
        assert(turtle_vocabulary(terms, bytes@));
        assert forall|i: int| 0 <= i < found@.len() implies vocab_ns().is_prefix_of(
            #[trigger] found@[i]@,
        ) by {
            assert(terms.to_set().contains(terms[i]));
            let j = choose|j: int| 0 <= j < triples@.len() && #[trigger] defines(triples@[j], terms[i]);
        }
    }
    found
}

/// Whether `term` is accounted for: a term under the shared vocabulary's namespace
/// is accounted for only by being one of `vocabulary`; any other by lying under a
/// well-known namespace or one of `namespaces`.
pub open spec fn defined_among(
    term: Seq<char>,
    namespaces: Seq<Seq<char>>,
    vocabulary: Seq<Seq<char>>,
) -> bool {
    if vocab_ns().is_prefix_of(term) {
        vocabulary.contains(term)
    } else {
        under_any(term, well_known_namespaces()) || under_any(term, namespaces)
    }
}

/// Whether `s` begins with one of `prefixes`.
fn under_one_of(s: &str, prefixes: &[String]) -> (r: bool)
    ensures
        r == under_any(s@, views(prefixes@)),
{
    let mut i: usize = 0;
    while i < prefixes.len()
        invariant
            i <= prefixes@.len(),
            forall|j: int| 0 <= j < i ==> !(#[trigger] views(prefixes@)[j]).is_prefix_of(s@),
        decreases prefixes@.len() - i,
    {
        if starts_with(s, prefixes[i].as_str()) {
            assert(views(prefixes@)[i as int] == prefixes@[i as int]@);
            return true;
        }
        i = i + 1;
    }
    false
}

/// [`is_defined`] against a vocabulary already read.
pub fn is_defined_among(term: &str, namespaces: &[String], vocabulary: &[String]) -> (r: bool)
    ensures
        r == defined_among(term@, views(namespaces@), views(vocabulary@)),
{
    let ns = vocabulary_namespace();
    let inside = starts_with(term, ns);
    assert(inside == vocab_ns().is_prefix_of(term@));
    if inside {
        let mut i: usize = 0;
        while i < vocabulary.len()
            invariant
                i <= vocabulary@.len(),
                vocab_ns().is_prefix_of(term@),
                forall|j: int| 0 <= j < i ==> #[trigger] views(vocabulary@)[j] != term@,
            decreases vocabulary@.len() - i,
        {
            if same(vocabulary[i].as_str(), term) {
                assert(views(vocabulary@)[i as int] == term@);
                assert(views(vocabulary@).contains(term@));
                return true;
            }
            i = i + 1;
        }
        false
    } else {
        is_well_known(term) || under_one_of(term, namespaces)
    }
}

/// Whether `term` is accounted for: defined in the shared vocabulary, under a
/// well-known namespace, or under one of the module's registered `namespaces`. An
/// undefined term under the vocabulary's own namespace is NOT accounted for by
/// being under it — that is exactly the invented-term case.
pub fn is_defined(term: &str, namespaces: &[String]) -> (r: bool)
    ensures
        exists|vocabulary: Seq<Seq<char>>|
            #[trigger] a_vocabulary(vocabulary) && r == defined_among(
                term@,
                views(namespaces@),
                vocabulary,
            ),
        !vocab_ns().is_prefix_of(term@) ==> r == (under_any(term@, well_known_namespaces())
            || under_any(term@, views(namespaces@))),
{
    let vocabulary = vocabulary_terms();
    let r = is_defined_among(term, namespaces, vocabulary.as_slice());
    assert(a_vocabulary(views(vocabulary@)));
    r
}

} // verus!
