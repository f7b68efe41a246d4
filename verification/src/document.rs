//! The document model: one exchange document and its optional
//! classifications, citations and family, read from an element tree.

use crate::text::{concatenated, trim, trimmed};
use crate::xml::{targets, text_content, XmlNode};
use vstd::prelude::*;

verus! {

/// Why an element could not be read as a part of the document model.
#[derive(Debug, Clone, Copy, PartialEq, Eq, Structural)]
pub enum ParseError {
    /// An exchange document without a `country` attribute.
    MissingCountry,
    /// An exchange document without a `doc-number` attribute.
    MissingDocNumber,
    /// An exchange document without a `kind` attribute.
    MissingKind,
    /// An exchange document without a `status` attribute.
    MissingStatus,
    /// A classification without a `classification-scheme` child.
    NoClassificationScheme,
    /// A classification scheme without a `scheme` attribute.
    MissingScheme,
    /// A classification without a `classification-symbol` child.
    NoClassificationSymbol,
    /// A publication reference without a `data-format` attribute.
    MissingDataFormat,
    /// A publication reference without a `document-id` child.
    NoDocumentId,
}

/// What a parse result holds, seen through the model of its value.
pub open spec fn parsed<T: DeepView>(result: Result<T, ParseError>) -> Result<T::V, ParseError> {
    match result {
        Ok(value) => Ok(value.deep_view()),
        Err(error) => Err(error),
    }
}

/// Reads every node with `parse`, in order. The first node that fails gives
/// the error of the whole.
pub open spec fn try_map<V>(
    nodes: Seq<XmlNode>,
    parse: spec_fn(XmlNode) -> Result<V, ParseError>,
) -> Result<Seq<V>, ParseError>
    decreases nodes.len(),
{
    if nodes.len() == 0 {
        Ok(Seq::empty())
    } else {
        match try_map(nodes.drop_last(), parse) {
            Err(error) => Err(error),
            Ok(done) => match parse(nodes.last()) {
                Err(error) => Err(error),
                Ok(value) => Ok(done.push(value)),
            },
        }
    }
}

/// An error among the first `n` nodes is the error of all of them.
pub proof fn lemma_try_map_prefix_error<V>(
    nodes: Seq<XmlNode>,
    parse: spec_fn(XmlNode) -> Result<V, ParseError>,
    n: int,
)
    requires
        0 <= n <= nodes.len(),
        try_map(nodes.take(n), parse) is Err,
    ensures
        try_map(nodes, parse) == try_map(nodes.take(n), parse),
    decreases nodes.len(),
{
    if n == nodes.len() {
        assert(nodes.take(n) =~= nodes);
    } else {
        assert(nodes.drop_last().take(n) =~= nodes.take(n));
        lemma_try_map_prefix_error(nodes.drop_last(), parse, n);
    }
}

/// One classification: the scheme it belongs to and its symbol.
#[derive(Debug, Clone, PartialEq, Eq)]
pub struct PatentClassification {
    pub scheme: String,
    pub classification_symbol: String,
}

/// The model of a [`PatentClassification`].
pub struct ClassificationModel {
    pub scheme: Seq<char>,
    pub classification_symbol: Seq<char>,
}

impl DeepView for PatentClassification {
    type V = ClassificationModel;

    open spec fn deep_view(&self) -> ClassificationModel {
        ClassificationModel {
            scheme: self.scheme@,
            classification_symbol: self.classification_symbol@,
        }
    }
}

/// The classification that a `patent-classification` element states: the
/// `scheme` attribute of its first `classification-scheme` child and the text
/// of its first `classification-symbol` child.
pub open spec fn classification_of(node: XmlNode) -> Result<ClassificationModel, ParseError> {
    match node.first_named_child("classification-scheme"@) {
        None => Err(ParseError::NoClassificationScheme),
        Some(scheme_node) => match scheme_node.attribute_value("scheme"@) {
            None => Err(ParseError::MissingScheme),
            Some(scheme) => match node.first_named_child("classification-symbol"@) {
                None => Err(ParseError::NoClassificationSymbol),
                Some(symbol_node) => Ok(
                    ClassificationModel {
                        scheme,
                        classification_symbol: text_content(symbol_node),
                    },
                ),
            },
        },
    }
}

/// [`classification_of`] as a function value.
pub open spec fn classification_parser() -> spec_fn(XmlNode) -> Result<
    ClassificationModel,
    ParseError,
> {
    |node: XmlNode| classification_of(node)
}

impl PatentClassification {
    /// Reads one `patent-classification` element.
    pub fn from_node(node: &XmlNode) -> (result: Result<Self, ParseError>)
        ensures
            parsed(result) == classification_of(*node),
    {
        let scheme_node = match node.first_child_named("classification-scheme") {
            Some(found) => found,
            None => { return Err(ParseError::NoClassificationScheme); },
        };
        let scheme = match scheme_node.attribute("scheme") {
            Some(value) => value,
            None => { return Err(ParseError::MissingScheme); },
        };
        let symbol_node = match node.first_child_named("classification-symbol") {
            Some(found) => found,
            None => { return Err(ParseError::NoClassificationSymbol); },
        };
        Ok(PatentClassification { scheme, classification_symbol: symbol_node.text() })
    }
}

/// The classifications of one document, in document order.
#[derive(Debug, Clone, PartialEq, Eq)]
pub struct PatentClassifications {
    pub patent_classifications: Vec<PatentClassification>,
}

impl DeepView for PatentClassifications {
    type V = Seq<ClassificationModel>;

    open spec fn deep_view(&self) -> Seq<ClassificationModel> {
        self.patent_classifications.deep_view()
    }
}

/// The classifications below `parent`: every `patent-classification` child of
/// a `patent-classifications` element, all of them well formed.
pub open spec fn classifications_of(parent: XmlNode) -> Result<
    Seq<ClassificationModel>,
    ParseError,
> {
    try_map(
        parent.nested_children("patent-classifications"@, "patent-classification"@),
        classification_parser(),
    )
}

impl PatentClassifications {
    /// Reads the classifications below `parent`.
    pub fn from_node(parent: &XmlNode) -> (result: Result<Self, ParseError>)
        ensures
            parsed(result) == classifications_of(*parent),
    {
        let nodes = parent.find_nested("patent-classifications", "patent-classification");
        let mut found: Vec<PatentClassification> = Vec::new();
        let mut i: usize = 0;
        assert(found.deep_view() =~= Seq::<ClassificationModel>::empty());
        while i < nodes.len()
            invariant
                i <= nodes.len(),
                targets(nodes@) == parent.nested_children(
                    "patent-classifications"@,
                    "patent-classification"@,
                ),
                try_map(targets(nodes@).take(i as int), classification_parser()) == Ok::<
                    Seq<ClassificationModel>,
                    ParseError,
                >(found.deep_view()),
            decreases nodes.len() - i,
        {
            proof {
                let next = targets(nodes@).take(i + 1);
                assert(next.drop_last() =~= targets(nodes@).take(i as int));
                assert(next.last() == *nodes@[i as int]);
            }
            match PatentClassification::from_node(nodes[i]) {
                Ok(classification) => {
                    let ghost before = found.deep_view();
                    found.push(classification);
                    assert(found.deep_view() =~= before.push(classification.deep_view()));
                },
                Err(error) => {
                    proof {
                        lemma_try_map_prefix_error(
                            targets(nodes@),
                            classification_parser(),
                            i + 1,
                        );
                    }
                    return Err(error);
                },
            }
            i += 1;
        }
        assert(targets(nodes@).take(nodes@.len() as int) =~= targets(nodes@));
        Ok(PatentClassifications { patent_classifications: found })
    }
}

/// The trimmed text of the first child of `node` named `name`, or nothing
/// where there is no such child.
pub open spec fn first_text(node: XmlNode, name: Seq<char>) -> Seq<char> {
    match node.first_named_child(name) {
        Some(child) => trimmed(text_content(child)),
        None => Seq::empty(),
    }
}

/// The trimmed text of the first child of `node` named `name`, or the empty
/// string where there is no such child.
pub fn extract_text_content(node: &XmlNode, name: &str) -> (text: String)
    ensures
        text@ == first_text(*node, name@),
{
    match node.first_child_named(name) {
        Some(child) => {
            let raw = child.text();
            trim(raw.as_str())
        },
        None => String::new(),
    }
}

/// The label of a `category` element: its trimmed text, unless that is empty.
pub open spec fn category_label() -> spec_fn(XmlNode) -> Option<Seq<char>> {
    |node: XmlNode|
        {
            let label = trimmed(text_content(node));
            if label.len() > 0 {
                Some(label)
            } else {
                None
            }
        }
}

/// The labels of the `category` children of `node`, in document order.
pub open spec fn categories_in(node: XmlNode) -> Seq<Seq<char>> {
    node.named_children("category"@).filter_map(category_label())
}

/// The labels of the `category` children of each passage, passage by passage.
pub open spec fn passage_categories(passages: Seq<XmlNode>) -> Seq<Seq<char>>
    decreases passages.len(),
{
    if passages.len() == 0 {
        Seq::empty()
    } else {
        passage_categories(passages.drop_last()) + categories_in(passages.last())
    }
}

/// The category labels of a citation: those declared directly under it, then
/// those nested in its `rel-passage` children.
pub open spec fn categories_of(citation: XmlNode) -> Seq<Seq<char>> {
    categories_in(citation) + passage_categories(citation.named_children("rel-passage"@))
}

/// Appends the labels of the `category` children of `node`.
fn append_categories(node: &XmlNode, labels: &mut Vec<String>)
    ensures
        final(labels).deep_view() == old(labels).deep_view() + categories_in(*node),
{
    let nodes = node.children_named("category");
    let mut i: usize = 0;
    assert(labels.deep_view() =~= old(labels).deep_view() + targets(nodes@).take(0).filter_map(
        category_label(),
    ));
    while i < nodes.len()
        invariant
            i <= nodes.len(),
            targets(nodes@) == node.named_children("category"@),
            labels.deep_view() == old(labels).deep_view() + targets(nodes@).take(
                i as int,
            ).filter_map(category_label()),
        decreases nodes.len() - i,
    {
        proof {
            targets(nodes@).lemma_filter_map_take_succ(category_label(), i as int);
        }
        let raw = nodes[i].text();
        let label = trim(raw.as_str());
        let ghost before = labels.deep_view();
        if !label.as_str().is_empty() {
            labels.push(label);
            assert(labels.deep_view() =~= before.push(label@));
        }
        assert(labels.deep_view() =~= old(labels).deep_view() + targets(nodes@).take(
            i + 1,
        ).filter_map(category_label()));
        i += 1;
    }
    assert(targets(nodes@).take(nodes@.len() as int) =~= targets(nodes@));
}

/// The category labels of a citation: those declared directly under it, then
/// those nested in its `rel-passage` children.
pub fn extract_categories(node: &XmlNode) -> (labels: Vec<String>)
    ensures
        labels.deep_view() == categories_of(*node),
{
    let mut labels: Vec<String> = Vec::new();
    assert(labels.deep_view() =~= Seq::<Seq<char>>::empty());
    append_categories(node, &mut labels);
    let ghost direct = labels.deep_view();
    assert(direct =~= categories_in(*node));
    let passages = node.children_named("rel-passage");
    let mut i: usize = 0;
    assert(labels.deep_view() =~= direct + passage_categories(targets(passages@).take(0)));
    while i < passages.len()
        invariant
            i <= passages.len(),
            targets(passages@) == node.named_children("rel-passage"@),
            labels.deep_view() == direct + passage_categories(targets(passages@).take(i as int)),
        decreases passages.len() - i,
    {
        proof {
            let next = targets(passages@).take(i + 1);
            assert(next.drop_last() =~= targets(passages@).take(i as int));
            assert(next.last() == *passages@[i as int]);
        }
        append_categories(passages[i], &mut labels);
        assert(labels.deep_view() =~= direct + passage_categories(
            targets(passages@).take(i + 1),
        ));
        i += 1;
    }
    assert(targets(passages@).take(passages@.len() as int) =~= targets(passages@));
    labels
}

/// A three-part document code: jurisdiction, number and kind.
#[derive(Debug, Clone, PartialEq, Eq)]
pub struct DocumentId {
    pub country: String,
    pub doc_number: String,
    pub kind: String,
}

/// The model of a [`DocumentId`].
pub struct DocumentIdModel {
    pub country: Seq<char>,
    pub doc_number: Seq<char>,
    pub kind: Seq<char>,
}

impl DeepView for DocumentId {
    type V = DocumentIdModel;

    open spec fn deep_view(&self) -> DocumentIdModel {
        DocumentIdModel { country: self.country@, doc_number: self.doc_number@, kind: self.kind@ }
    }
}

/// The canonical id of a document: its three parts, one after the other.
pub open spec fn canonical_id(country: Seq<char>, doc_number: Seq<char>, kind: Seq<char>) -> Seq<
    char,
> {
    country + doc_number + kind
}

/// The canonical id made of the three parts.
pub fn make_canonical_id(country: &str, doc_number: &str, kind: &str) -> (id: String)
    ensures
        id@ == canonical_id(country@, doc_number@, kind@),
{
    let mut id = concatenated(country, doc_number);
    id.append(kind);
    id
}

/// One citation: the document it refers to, if it names one, and its
/// category labels.
#[derive(Debug, Clone, PartialEq, Eq)]
pub struct Citation {
    pub cited_id: Option<String>,
    pub categories: Vec<String>,
}

/// The model of a [`Citation`].
pub struct CitationModel {
    pub cited_id: Option<Seq<char>>,
    pub categories: Seq<Seq<char>>,
}

impl DeepView for Citation {
    type V = CitationModel;

    open spec fn deep_view(&self) -> CitationModel {
        CitationModel {
            cited_id: self.cited_id.deep_view(),
            categories: self.categories.deep_view(),
        }
    }
}

/// The id of the document that a citation refers to: the trimmed `country`,
/// `doc-number` and `kind` of the first `document-id` of its first `patcit`,
/// unless all three are empty.
pub open spec fn cited_id_of(citation: XmlNode) -> Option<Seq<char>> {
    match citation.first_named_child("patcit"@) {
        None => None,
        Some(patcit) => match patcit.first_named_child("document-id"@) {
            None => None,
            Some(document_id) => {
                let country = first_text(document_id, "country"@);
                let doc_number = first_text(document_id, "doc-number"@);
                let kind = first_text(document_id, "kind"@);
                if country.len() == 0 && doc_number.len() == 0 && kind.len() == 0 {
                    None
                } else {
                    Some(canonical_id(country, doc_number, kind))
                }
            },
        },
    }
}

/// The citation that a `citation` element states.
pub open spec fn citation_of(node: XmlNode) -> CitationModel {
    CitationModel { cited_id: cited_id_of(node), categories: categories_of(node) }
}

impl Citation {
    /// Reads one `citation` element. Every such element can be read.
    pub fn from_node(node: &XmlNode) -> (citation: Self)
        ensures
            citation.deep_view() == citation_of(*node),
    {
        let categories = extract_categories(node);
        let mut cited_id: Option<String> = None;
        if let Some(patcit) = node.first_child_named("patcit") {
            if let Some(document_id) = patcit.first_child_named("document-id") {
                let country = extract_text_content(document_id, "country");
                let doc_number = extract_text_content(document_id, "doc-number");
                let kind = extract_text_content(document_id, "kind");
                if !(country.as_str().is_empty() && doc_number.as_str().is_empty()
                    && kind.as_str().is_empty()) {
                    cited_id =
                    Some(make_canonical_id(country.as_str(), doc_number.as_str(), kind.as_str()));
                }
            }
        }
        Citation { cited_id, categories }
    }
}

/// The citations of one document, in document order.
#[derive(Debug, Clone, PartialEq, Eq)]
pub struct ReferencesCited {
    pub citations: Vec<Citation>,
}

impl DeepView for ReferencesCited {
    type V = Seq<CitationModel>;

    open spec fn deep_view(&self) -> Seq<CitationModel> {
        self.citations.deep_view()
    }
}

/// [`citation_of`] as a function value.
pub open spec fn citation_reader() -> spec_fn(XmlNode) -> CitationModel {
    |node: XmlNode| citation_of(node)
}

/// The citations below `parent`: every `citation` child of a
/// `references-cited` element.
pub open spec fn citations_of(parent: XmlNode) -> Seq<CitationModel> {
    parent.nested_children("references-cited"@, "citation"@).map_values(citation_reader())
}

impl ReferencesCited {
    /// Reads the citations below `parent`.
    pub fn from_node(parent: &XmlNode) -> (references: Self)
        ensures
            references.deep_view() == citations_of(*parent),
    {
        let nodes = parent.find_nested("references-cited", "citation");
        let mut citations: Vec<Citation> = Vec::new();
        let mut i: usize = 0;
        assert(citations.deep_view() =~= targets(nodes@).take(0).map_values(citation_reader()));
        while i < nodes.len()
            invariant
                i <= nodes.len(),
                targets(nodes@) == parent.nested_children("references-cited"@, "citation"@),
                citations.deep_view() == targets(nodes@).take(i as int).map_values(
                    citation_reader(),
                ),
            decreases nodes.len() - i,
        {
            let citation = Citation::from_node(nodes[i]);
            let ghost before = citations.deep_view();
            citations.push(citation);
            assert(citations.deep_view() =~= before.push(citation.deep_view()));
            assert(citations.deep_view() =~= targets(nodes@).take(i + 1).map_values(
                citation_reader(),
            ));
            i += 1;
        }
        assert(targets(nodes@).take(nodes@.len() as int) =~= targets(nodes@));
        ReferencesCited { citations }
    }
}

/// One publication reference of a family member: the format its id is
/// written in, and the id.
#[derive(Debug, Clone, PartialEq, Eq)]
pub struct PublicationReference {
    pub data_format: String,
    pub document_id: DocumentId,
}

/// The model of a [`PublicationReference`].
pub struct ReferenceModel {
    pub data_format: Seq<char>,
    pub document_id: DocumentIdModel,
}

impl DeepView for PublicationReference {
    type V = ReferenceModel;

    open spec fn deep_view(&self) -> ReferenceModel {
        ReferenceModel {
            data_format: self.data_format@,
            document_id: self.document_id.deep_view(),
        }
    }
}

/// The text of the first child of `node` named `name`, as it stands, or
/// nothing where there is no such child.
pub open spec fn first_raw_text(node: XmlNode, name: Seq<char>) -> Seq<char> {
    match node.first_named_child(name) {
        Some(child) => text_content(child),
        None => Seq::empty(),
    }
}

/// The text of the first child of `node` named `name`, as it stands.
fn raw_text_of_child(node: &XmlNode, name: &str) -> (text: String)
    ensures
        text@ == first_raw_text(*node, name@),
{
    match node.first_child_named(name) {
        Some(child) => child.text(),
        None => String::new(),
    }
}

/// The reference that a `publication-reference` element states: its
/// `data-format` attribute and the parts of its first `document-id` child.
pub open spec fn reference_of(node: XmlNode) -> Result<ReferenceModel, ParseError> {
    match node.attribute_value("data-format"@) {
        None => Err(ParseError::MissingDataFormat),
        Some(data_format) => match node.first_named_child("document-id"@) {
            None => Err(ParseError::NoDocumentId),
            Some(document_id) => Ok(
                ReferenceModel {
                    data_format,
                    document_id: DocumentIdModel {
                        country: first_raw_text(document_id, "country"@),
                        doc_number: first_raw_text(document_id, "doc-number"@),
                        kind: first_raw_text(document_id, "kind"@),
                    },
                },
            ),
        },
    }
}

/// [`reference_of`] as a function value.
pub open spec fn reference_parser() -> spec_fn(XmlNode) -> Result<ReferenceModel, ParseError> {
    |node: XmlNode| reference_of(node)
}

impl PublicationReference {
    /// Reads one `publication-reference` element.
    pub fn from_node(node: &XmlNode) -> (result: Result<Self, ParseError>)
        ensures
            parsed(result) == reference_of(*node),
    {
        let data_format = match node.attribute("data-format") {
            Some(value) => value,
            None => { return Err(ParseError::MissingDataFormat); },
        };
        let id_node = match node.first_child_named("document-id") {
            Some(found) => found,
            None => { return Err(ParseError::NoDocumentId); },
        };
        let country = raw_text_of_child(id_node, "country");
        let doc_number = raw_text_of_child(id_node, "doc-number");
        let kind = raw_text_of_child(id_node, "kind");
        Ok(
            PublicationReference {
                data_format,
                document_id: DocumentId { country, doc_number, kind },
            },
        )
    }
}

/// One member of a patent family: its publication references.
#[derive(Debug, Clone, PartialEq, Eq)]
pub struct FamilyMember {
    pub publication_references: Vec<PublicationReference>,
}

impl DeepView for FamilyMember {
    type V = Seq<ReferenceModel>;

    open spec fn deep_view(&self) -> Seq<ReferenceModel> {
        self.publication_references.deep_view()
    }
}

/// The references of a `family-member` element: its `publication-reference`
/// children, all of them well formed.
pub open spec fn member_of(node: XmlNode) -> Result<Seq<ReferenceModel>, ParseError> {
    try_map(node.named_children("publication-reference"@), reference_parser())
}

/// [`member_of`] as a function value.
pub open spec fn member_parser() -> spec_fn(XmlNode) -> Result<Seq<ReferenceModel>, ParseError> {
    |node: XmlNode| member_of(node)
}

impl FamilyMember {
    /// Reads one `family-member` element.
    pub fn from_node(parent: &XmlNode) -> (result: Result<Self, ParseError>)
        ensures
            parsed(result) == member_of(*parent),
    {
        let nodes = parent.children_named("publication-reference");
        let mut found: Vec<PublicationReference> = Vec::new();
        let mut i: usize = 0;
        assert(found.deep_view() =~= Seq::<ReferenceModel>::empty());
        while i < nodes.len()
            invariant
                i <= nodes.len(),
                targets(nodes@) == parent.named_children("publication-reference"@),
                try_map(targets(nodes@).take(i as int), reference_parser()) == Ok::<
                    Seq<ReferenceModel>,
                    ParseError,
                >(found.deep_view()),
            decreases nodes.len() - i,
        {
            proof {
                let next = targets(nodes@).take(i + 1);
                assert(next.drop_last() =~= targets(nodes@).take(i as int));
                assert(next.last() == *nodes@[i as int]);
            }
            match PublicationReference::from_node(nodes[i]) {
                Ok(reference) => {
                    let ghost before = found.deep_view();
                    found.push(reference);
                    assert(found.deep_view() =~= before.push(reference.deep_view()));
                },
                Err(error) => {
                    proof {
                        lemma_try_map_prefix_error(targets(nodes@), reference_parser(), i + 1);
                    }
                    return Err(error);
                },
            }
            i += 1;
        }
        assert(targets(nodes@).take(nodes@.len() as int) =~= targets(nodes@));
        Ok(FamilyMember { publication_references: found })
    }
}

/// The family of one document: its members, in document order.
#[derive(Debug, Clone, PartialEq, Eq)]
pub struct PatentFamily {
    pub family_members: Vec<FamilyMember>,
}

impl DeepView for PatentFamily {
    type V = Seq<Seq<ReferenceModel>>;

    open spec fn deep_view(&self) -> Seq<Seq<ReferenceModel>> {
        self.family_members.deep_view()
    }
}

/// The family below `parent`: every `family-member` child of a
/// `patent-family` element, all of them well formed.
pub open spec fn family_of(parent: XmlNode) -> Result<Seq<Seq<ReferenceModel>>, ParseError> {
    try_map(parent.nested_children("patent-family"@, "family-member"@), member_parser())
}

impl PatentFamily {
    /// Reads the family below `parent`.
    pub fn from_node(parent: &XmlNode) -> (result: Result<Self, ParseError>)
        ensures
            parsed(result) == family_of(*parent),
    {
        let nodes = parent.find_nested("patent-family", "family-member");
        let mut found: Vec<FamilyMember> = Vec::new();
        let mut i: usize = 0;
        assert(found.deep_view() =~= Seq::<Seq<ReferenceModel>>::empty());
        while i < nodes.len()
            invariant
                i <= nodes.len(),
                targets(nodes@) == parent.nested_children("patent-family"@, "family-member"@),
                try_map(targets(nodes@).take(i as int), member_parser()) == Ok::<
                    Seq<Seq<ReferenceModel>>,
                    ParseError,
                >(found.deep_view()),
            decreases nodes.len() - i,
        {
            proof {
                let next = targets(nodes@).take(i + 1);
                assert(next.drop_last() =~= targets(nodes@).take(i as int));
                assert(next.last() == *nodes@[i as int]);
            }
            match FamilyMember::from_node(nodes[i]) {
                Ok(member) => {
                    let ghost before = found.deep_view();
                    found.push(member);
                    assert(found.deep_view() =~= before.push(member.deep_view()));
                },
                Err(error) => {
                    proof {
                        lemma_try_map_prefix_error(targets(nodes@), member_parser(), i + 1);
                    }
                    return Err(error);
                },
            }
            i += 1;
        }
        assert(targets(nodes@).take(nodes@.len() as int) =~= targets(nodes@));
        Ok(PatentFamily { family_members: found })
    }
}

/// One exchange document: its identity, its status, and the substructures
/// that could be read.
#[derive(Debug, Clone, PartialEq, Eq)]
pub struct ExchangeDocument {
    pub country: String,
    pub doc_number: String,
    pub kind: String,
    pub status: String,
    pub patent_classifications: Option<PatentClassifications>,
    pub references_cited: Option<ReferencesCited>,
    pub patent_family: Option<PatentFamily>,
}

/// The model of an [`ExchangeDocument`].
pub struct DocumentModel {
    pub country: Seq<char>,
    pub doc_number: Seq<char>,
    pub kind: Seq<char>,
    pub status: Seq<char>,
    pub patent_classifications: Option<Seq<ClassificationModel>>,
    pub references_cited: Option<Seq<CitationModel>>,
    pub patent_family: Option<Seq<Seq<ReferenceModel>>>,
}

impl DeepView for ExchangeDocument {
    type V = DocumentModel;

    open spec fn deep_view(&self) -> DocumentModel {
        DocumentModel {
            country: self.country@,
            doc_number: self.doc_number@,
            kind: self.kind@,
            status: self.status@,
            patent_classifications: self.patent_classifications.deep_view(),
            references_cited: self.references_cited.deep_view(),
            patent_family: self.patent_family.deep_view(),
        }
    }
}

/// A substructure that could not be read is absent.
pub open spec fn optional<V>(result: Result<V, ParseError>) -> Option<V> {
    match result {
        Ok(value) => Some(value),
        Err(_) => None,
    }
}

/// The document that an `exchange-document` element states. Its four
/// attributes are mandatory, and the first one missing, in the order
/// `country`, `doc-number`, `kind`, `status`, is the error. Of the three
/// substructures, and of them only, a failure leaves the field empty.
pub open spec fn document_of(node: XmlNode) -> Result<DocumentModel, ParseError> {
    match node.attribute_value("country"@) {
        None => Err(ParseError::MissingCountry),
        Some(country) => match node.attribute_value("doc-number"@) {
            None => Err(ParseError::MissingDocNumber),
            Some(doc_number) => match node.attribute_value("kind"@) {
                None => Err(ParseError::MissingKind),
                Some(kind) => match node.attribute_value("status"@) {
                    None => Err(ParseError::MissingStatus),
                    Some(status) => Ok(
                        DocumentModel {
                            country,
                            doc_number,
                            kind,
                            status,
                            patent_classifications: optional(classifications_of(node)),
                            references_cited: Some(citations_of(node)),
                            patent_family: optional(family_of(node)),
                        },
                    ),
                },
            },
        },
    }
}

impl ExchangeDocument {
    /// Reads one `exchange-document` element.
    pub fn from_node(node: &XmlNode) -> (result: Result<Self, ParseError>)
        ensures
            parsed(result) == document_of(*node),
    {
        let country = match node.attribute("country") {
            Some(value) => value,
            None => { return Err(ParseError::MissingCountry); },
        };
        let doc_number = match node.attribute("doc-number") {
            Some(value) => value,
            None => { return Err(ParseError::MissingDocNumber); },
        };
        let kind = match node.attribute("kind") {
            Some(value) => value,
            None => { return Err(ParseError::MissingKind); },
        };
        let status = match node.attribute("status") {
            Some(value) => value,
            None => { return Err(ParseError::MissingStatus); },
        };
        let patent_classifications = match PatentClassifications::from_node(node) {
            Ok(found) => Some(found),
            Err(_) => None,
        };
        let references_cited = Some(ReferencesCited::from_node(node));
        let patent_family = match PatentFamily::from_node(node) {
            Ok(found) => Some(found),
            Err(_) => None,
        };
        Ok(
            ExchangeDocument {
                country,
                doc_number,
                kind,
                status,
                patent_classifications,
                references_cited,
                patent_family,
            },
        )
    }

    /// The canonical id: country, number and kind, one after the other.
    pub fn patent_id(&self) -> (id: String)
        ensures
            id@ == canonical_id(self.country@, self.doc_number@, self.kind@),
    {
        make_canonical_id(self.country.as_str(), self.doc_number.as_str(), self.kind.as_str())
    }
}

} // verus!
