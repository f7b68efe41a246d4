use epo_processor::document::{
    extract_categories, extract_text_content, make_canonical_id, Citation, ExchangeDocument,
    FamilyMember, ParseError, PatentClassification, PatentClassifications, PatentFamily,
    PublicationReference, ReferencesCited,
};
use epo_processor::xml::{XmlAttribute, XmlNode};

fn element(name: &str, attributes: Vec<(&str, &str)>, children: Vec<XmlNode>) -> XmlNode {
    XmlNode::Element {
        name: name.to_string(),
        attributes: attributes
            .into_iter()
            .map(|(n, v)| XmlAttribute { name: n.to_string(), value: v.to_string() })
            .collect(),
        children,
    }
}

fn text(content: &str) -> XmlNode {
    XmlNode::Text { content: content.to_string() }
}

fn leaf(name: &str, content: &str) -> XmlNode {
    element(name, vec![], vec![text(content)])
}

fn classification(scheme: &str, symbol: &str) -> XmlNode {
    element(
        "patent-classification",
        vec![],
        vec![
            element("classification-scheme", vec![("office", "EP"), ("scheme", scheme)], vec![]),
            leaf("classification-symbol", symbol),
        ],
    )
}

fn document_id(country: &str, number: &str, kind: &str) -> XmlNode {
    element(
        "document-id",
        vec![],
        vec![leaf("country", country), leaf("doc-number", number), leaf("kind", kind)],
    )
}

fn reference(format: &str, country: &str, number: &str, kind: &str) -> XmlNode {
    element(
        "publication-reference",
        vec![("data-format", format)],
        vec![document_id(country, number, kind)],
    )
}

fn exchange_document(children: Vec<XmlNode>) -> XmlNode {
    element(
        "exchange-document",
        vec![("country", "EP"), ("doc-number", "1000000"), ("kind", "A1"), ("status", "new")],
        children,
    )
}

#[test]
fn canonical_id_is_the_three_parts_in_a_row() {
    assert_eq!(make_canonical_id("EP", "1234567", "A1"), "EP1234567A1");
    assert_eq!(make_canonical_id("", "1", ""), "1");
    assert_eq!(make_canonical_id("", "", ""), "");
}

#[test]
fn classification_takes_scheme_and_symbol_as_they_stand() {
    let node = classification("CPCI", "  H04L   9/00  ");
    let found = PatentClassification::from_node(&node).unwrap();
    assert_eq!(found.scheme, "CPCI");
    assert_eq!(found.classification_symbol, "  H04L   9/00  ");
}

#[test]
fn classification_without_scheme_element_fails() {
    let node = element("patent-classification", vec![], vec![leaf("classification-symbol", "A")]);
    assert_eq!(PatentClassification::from_node(&node), Err(ParseError::NoClassificationScheme));
}

#[test]
fn classification_without_scheme_attribute_fails() {
    let node = element(
        "patent-classification",
        vec![],
        vec![
            element("classification-scheme", vec![("office", "EP")], vec![]),
            leaf("classification-symbol", "A"),
        ],
    );
    assert_eq!(PatentClassification::from_node(&node), Err(ParseError::MissingScheme));
}

#[test]
fn classification_without_symbol_fails() {
    let node = element(
        "patent-classification",
        vec![],
        vec![element("classification-scheme", vec![("scheme", "CPCI")], vec![])],
    );
    assert_eq!(PatentClassification::from_node(&node), Err(ParseError::NoClassificationSymbol));
}

#[test]
fn classifications_are_read_in_document_order() {
    let parent = exchange_document(vec![element(
        "bibliographic-data",
        vec![],
        vec![element(
            "patent-classifications",
            vec![],
            vec![classification("CPCI", "A"), classification("IPC", "B"), classification("CPCI", "C")],
        )],
    )]);
    let found = PatentClassifications::from_node(&parent).unwrap();
    let symbols: Vec<&str> =
        found.patent_classifications.iter().map(|c| c.classification_symbol.as_str()).collect();
    assert_eq!(symbols, vec!["A", "B", "C"]);
}

#[test]
fn classifications_fail_with_the_first_malformed_one() {
    let parent = exchange_document(vec![element(
        "patent-classifications",
        vec![],
        vec![
            classification("CPCI", "A"),
            element("patent-classification", vec![], vec![leaf("classification-symbol", "B")]),
            element("patent-classification", vec![], vec![]),
        ],
    )]);
    assert_eq!(PatentClassifications::from_node(&parent), Err(ParseError::NoClassificationScheme));
}

#[test]
fn classifications_of_a_document_without_any_are_empty() {
    let found = PatentClassifications::from_node(&exchange_document(vec![])).unwrap();
    assert!(found.patent_classifications.is_empty());
}

#[test]
fn text_of_first_child_is_trimmed() {
    let node = element("document-id", vec![], vec![leaf("country", "  EP \n"), leaf("country", "US")]);
    assert_eq!(extract_text_content(&node, "country"), "EP");
    assert_eq!(extract_text_content(&node, "kind"), "");
}

#[test]
fn categories_are_direct_ones_then_those_of_passages() {
    let citation = element(
        "citation",
        vec![],
        vec![
            element("rel-passage", vec![], vec![leaf("category", "Y"), leaf("passage", "p. 3")]),
            leaf("category", " X "),
            leaf("category", "   "),
            element("rel-passage", vec![], vec![leaf("category", ""), leaf("category", "A")]),
        ],
    );
    assert_eq!(extract_categories(&citation), vec!["X", "Y", "A"]);
}

#[test]
fn citation_with_one_direct_and_one_nested_category_has_both_in_that_order() {
    let node = element(
        "citation",
        vec![],
        vec![
            element("patcit", vec![], vec![document_id("US", "7654321", "B2")]),
            element("rel-passage", vec![], vec![leaf("category", "Y")]),
            leaf("category", "X"),
        ],
    );
    let citation = Citation::from_node(&node);
    assert_eq!(citation.cited_id, Some("US7654321B2".to_string()));
    assert_eq!(citation.categories, vec!["X", "Y"]);
}

#[test]
fn citation_id_is_made_of_trimmed_parts() {
    let node = element(
        "citation",
        vec![],
        vec![element("patcit", vec![], vec![document_id(" US ", "\n7654321", "B2\t")])],
    );
    assert_eq!(Citation::from_node(&node).cited_id, Some("US7654321B2".to_string()));
}

#[test]
fn citation_id_may_lack_parts_but_not_all_of_them() {
    let partial = element(
        "citation",
        vec![],
        vec![element(
            "patcit",
            vec![],
            vec![element("document-id", vec![], vec![leaf("doc-number", "42")])],
        )],
    );
    assert_eq!(Citation::from_node(&partial).cited_id, Some("42".to_string()));
    let blank = element(
        "citation",
        vec![],
        vec![element("patcit", vec![], vec![document_id(" ", "", "\n")])],
    );
    assert_eq!(Citation::from_node(&blank).cited_id, None);
}

#[test]
fn citation_without_patent_reference_has_no_id() {
    let no_patcit = element("citation", vec![], vec![leaf("nplcit", "a paper"), leaf("category", "A")]);
    let citation = Citation::from_node(&no_patcit);
    assert_eq!(citation.cited_id, None);
    assert_eq!(citation.categories, vec!["A"]);
    let no_id = element("citation", vec![], vec![element("patcit", vec![], vec![])]);
    assert_eq!(Citation::from_node(&no_id).cited_id, None);
}

#[test]
fn citation_id_comes_from_the_first_patent_reference_only() {
    let node = element(
        "citation",
        vec![],
        vec![
            element("patcit", vec![], vec![]),
            element("patcit", vec![], vec![document_id("US", "1", "A")]),
        ],
    );
    assert_eq!(Citation::from_node(&node).cited_id, None);
}

#[test]
fn references_are_the_citations_below_references_cited() {
    let parent = exchange_document(vec![
        element("citation", vec![], vec![leaf("category", "stray")]),
        element(
            "references-cited",
            vec![],
            vec![
                element("citation", vec![], vec![leaf("category", "X")]),
                element("citation", vec![], vec![leaf("category", "Y")]),
            ],
        ),
    ]);
    let found = ReferencesCited::from_node(&parent);
    let categories: Vec<Vec<String>> = found.citations.into_iter().map(|c| c.categories).collect();
    assert_eq!(categories, vec![vec!["X".to_string()], vec!["Y".to_string()]]);
}

#[test]
fn publication_reference_takes_its_parts_as_they_stand() {
    let node = reference("docdb", " EP ", "1", "A1");
    let found = PublicationReference::from_node(&node).unwrap();
    assert_eq!(found.data_format, "docdb");
    assert_eq!(found.document_id.country, " EP ");
    assert_eq!(found.document_id.doc_number, "1");
    assert_eq!(found.document_id.kind, "A1");
}

#[test]
fn publication_reference_may_lack_parts_of_the_id() {
    let node = element(
        "publication-reference",
        vec![("data-format", "epodoc")],
        vec![element("document-id", vec![], vec![leaf("doc-number", "EP1")])],
    );
    let found = PublicationReference::from_node(&node).unwrap();
    assert_eq!(found.document_id.country, "");
    assert_eq!(found.document_id.doc_number, "EP1");
    assert_eq!(found.document_id.kind, "");
}

#[test]
fn publication_reference_without_format_fails() {
    let node = element("publication-reference", vec![], vec![document_id("EP", "1", "A1")]);
    assert_eq!(PublicationReference::from_node(&node), Err(ParseError::MissingDataFormat));
}

#[test]
fn publication_reference_without_id_fails() {
    let node = element("publication-reference", vec![("data-format", "docdb")], vec![]);
    assert_eq!(PublicationReference::from_node(&node), Err(ParseError::NoDocumentId));
}

#[test]
fn family_member_fails_with_its_first_malformed_reference() {
    let node = element(
        "family-member",
        vec![],
        vec![
            reference("docdb", "EP", "1", "A1"),
            element("publication-reference", vec![("data-format", "docdb")], vec![]),
            element("publication-reference", vec![], vec![]),
        ],
    );
    assert_eq!(FamilyMember::from_node(&node), Err(ParseError::NoDocumentId));
}

#[test]
fn family_is_read_member_by_member() {
    let parent = exchange_document(vec![element(
        "patent-family",
        vec![],
        vec![
            element(
                "family-member",
                vec![],
                vec![reference("docdb", "EP", "1", "A1"), reference("epodoc", "EP", "1", "")],
            ),
            element("family-member", vec![], vec![reference("docdb", "US", "2", "B2")]),
        ],
    )]);
    let family = PatentFamily::from_node(&parent).unwrap();
    assert_eq!(family.family_members.len(), 2);
    assert_eq!(family.family_members[0].publication_references.len(), 2);
    assert_eq!(family.family_members[1].publication_references[0].document_id.country, "US");
}

#[test]
fn document_with_all_attributes_is_read() {
    let document = ExchangeDocument::from_node(&exchange_document(vec![])).unwrap();
    assert_eq!(document.country, "EP");
    assert_eq!(document.doc_number, "1000000");
    assert_eq!(document.kind, "A1");
    assert_eq!(document.status, "new");
    assert_eq!(document.patent_id(), "EP1000000A1");
    assert_eq!(document.patent_classifications.unwrap().patent_classifications.len(), 0);
    assert_eq!(document.references_cited.unwrap().citations.len(), 0);
    assert_eq!(document.patent_family.unwrap().family_members.len(), 0);
}

#[test]
fn document_without_country_fails() {
    let node = element("exchange-document", vec![("doc-number", "1"), ("kind", "A"), ("status", "n")], vec![]);
    assert_eq!(ExchangeDocument::from_node(&node), Err(ParseError::MissingCountry));
}

#[test]
fn document_without_number_fails() {
    let node = element("exchange-document", vec![("country", "EP"), ("kind", "A"), ("status", "n")], vec![]);
    assert_eq!(ExchangeDocument::from_node(&node), Err(ParseError::MissingDocNumber));
}

#[test]
fn document_without_kind_fails() {
    let node =
        element("exchange-document", vec![("country", "EP"), ("doc-number", "1"), ("status", "n")], vec![]);
    assert_eq!(ExchangeDocument::from_node(&node), Err(ParseError::MissingKind));
}

#[test]
fn document_without_status_fails() {
    let node =
        element("exchange-document", vec![("country", "EP"), ("doc-number", "1"), ("kind", "A")], vec![]);
    assert_eq!(ExchangeDocument::from_node(&node), Err(ParseError::MissingStatus));
}

#[test]
fn document_reports_the_first_missing_attribute() {
    let node = element("exchange-document", vec![("country", "EP")], vec![]);
    assert_eq!(ExchangeDocument::from_node(&node), Err(ParseError::MissingDocNumber));
    assert_eq!(ExchangeDocument::from_node(&text("x")), Err(ParseError::MissingCountry));
}

#[test]
fn document_keeps_going_when_a_substructure_cannot_be_read() {
    let node = exchange_document(vec![
        element(
            "patent-classifications",
            vec![],
            vec![classification("CPCI", "A"), element("patent-classification", vec![], vec![])],
        ),
        element(
            "patent-family",
            vec![],
            vec![element(
                "family-member",
                vec![],
                vec![element("publication-reference", vec![], vec![])],
            )],
        ),
        element("references-cited", vec![], vec![element("citation", vec![], vec![])]),
    ]);
    let document = ExchangeDocument::from_node(&node).unwrap();
    assert!(document.patent_classifications.is_none());
    assert!(document.patent_family.is_none());
    assert_eq!(document.references_cited.unwrap().citations.len(), 1);
}
