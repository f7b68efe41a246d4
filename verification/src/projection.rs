//! The tabular projection: one flat record of five fields for each exchange
//! document, written out in the order in which the documents are found.

use crate::document::{
    canonical_id, document_of, lemma_try_map_prefix_error, make_canonical_id, parsed, try_map,
    Citation, CitationModel, ClassificationModel, DocumentModel, ExchangeDocument, FamilyMember,
    ParseError, PatentClassification, PublicationReference, ReferenceModel,
};
use crate::ordered::{lemma_sorted_distinct, sort_distinct, sorted_distinct, strictly_increasing};
use crate::sink::{csv_line, encode_record, header_fields, header_line};
use crate::text::{concatenated, join, joined, trim, trimmed};
use crate::xml::{elements_named, targets, XmlNode};
use vstd::prelude::*;

verus! {

/// The flat record of one document.
#[derive(Debug, Clone, PartialEq, Eq)]
pub struct PatentRecord {
    /// The canonical id of the document.
    pub patent_id: String,
    /// Its status.
    pub status: String,
    /// The symbols of its CPCI classifications, joined by `;`.
    pub cpc_list: String,
    /// Its citations that name a document, joined by `;`.
    pub citations: String,
    /// The ids of the other members of its family, sorted, joined by `;`.
    pub family_patents: String,
}

/// The model of a [`PatentRecord`].
pub struct RecordModel {
    pub patent_id: Seq<char>,
    pub status: Seq<char>,
    pub cpc_list: Seq<char>,
    pub citations: Seq<char>,
    pub family_patents: Seq<char>,
}

impl DeepView for PatentRecord {
    type V = RecordModel;

    open spec fn deep_view(&self) -> RecordModel {
        RecordModel {
            patent_id: self.patent_id@,
            status: self.status@,
            cpc_list: self.cpc_list@,
            citations: self.citations@,
            family_patents: self.family_patents@,
        }
    }
}

/// The five fields of a record, in column order.
pub open spec fn record_fields(record: RecordModel) -> Seq<Seq<char>> {
    seq![
        record.patent_id,
        record.status,
        record.cpc_list,
        record.citations,
        record.family_patents,
    ]
}

/// The predicate "belongs to the scheme CPCI".
pub open spec fn is_cpci() -> spec_fn(ClassificationModel) -> bool {
    |classification: ClassificationModel| classification.scheme == "CPCI"@
}

/// The trimmed symbol of a classification.
pub open spec fn trimmed_symbol() -> spec_fn(ClassificationModel) -> Seq<char> {
    |classification: ClassificationModel| trimmed(classification.classification_symbol)
}

/// The trimmed symbols of the classifications of the scheme CPCI, in order.
pub open spec fn cpc_symbols(classifications: Seq<ClassificationModel>) -> Seq<Seq<char>> {
    classifications.filter(is_cpci()).map_values(trimmed_symbol())
}

/// A citation as it is listed: the cited id, then its categories in
/// brackets, joined by commas. A citation without a cited id is not listed.
pub open spec fn citation_text() -> spec_fn(CitationModel) -> Option<Seq<char>> {
    |citation: CitationModel|
        match citation.cited_id {
            Some(id) => Some(id + " ("@ + joined(citation.categories, ","@) + ")"@),
            None => None,
        }
}

/// The predicate "is written in the format docdb".
pub open spec fn is_docdb() -> spec_fn(ReferenceModel) -> bool {
    |reference: ReferenceModel| reference.data_format == "docdb"@
}

/// The canonical id that a reference holds.
pub open spec fn reference_id() -> spec_fn(ReferenceModel) -> Seq<char> {
    |reference: ReferenceModel|
        canonical_id(
            reference.document_id.country,
            reference.document_id.doc_number,
            reference.document_id.kind,
        )
}

/// The ids of the docdb references of one family member, in order.
pub open spec fn docdb_ids(references: Seq<ReferenceModel>) -> Seq<Seq<char>> {
    references.filter(is_docdb()).map_values(reference_id())
}

/// The ids of the docdb references of all members, member by member.
pub open spec fn family_candidates(members: Seq<Seq<ReferenceModel>>) -> Seq<Seq<char>>
    decreases members.len(),
{
    if members.len() == 0 {
        Seq::empty()
    } else {
        family_candidates(members.drop_last()) + docdb_ids(members.last())
    }
}

/// The predicate "is another id than `own`".
pub open spec fn other_than(own: Seq<char>) -> spec_fn(Seq<char>) -> bool {
    |id: Seq<char>| id != own
}

/// The family ids of a document: the docdb ids of its family, without its
/// own id, sorted, each of them once.
pub open spec fn family_ids(members: Seq<Seq<ReferenceModel>>, own: Seq<char>) -> Seq<Seq<char>> {
    sorted_distinct(family_candidates(members).filter(other_than(own)))
}

/// The record of a document.
pub open spec fn record_of(document: DocumentModel) -> RecordModel {
    let own = canonical_id(document.country, document.doc_number, document.kind);
    RecordModel {
        patent_id: own,
        status: document.status,
        cpc_list: match document.patent_classifications {
            Some(classifications) => joined(cpc_symbols(classifications), ";"@),
            None => Seq::empty(),
        },
        citations: match document.references_cited {
            Some(citations) => joined(citations.filter_map(citation_text()), ";"@),
            None => Seq::empty(),
        },
        family_patents: match document.patent_family {
            Some(members) => joined(family_ids(members, own), ";"@),
            None => Seq::empty(),
        },
    }
}

/// A document never lists itself among its family; the family ids are sorted
/// and none occurs twice; and each docdb id of the family other than the
/// document's own is listed.
pub proof fn lemma_family_ids(members: Seq<Seq<ReferenceModel>>, own: Seq<char>)
    ensures
        !family_ids(members, own).contains(own),
        strictly_increasing(family_ids(members, own)),
        forall|id: Seq<char>|
            family_ids(members, own).contains(id) <==> (family_candidates(members).contains(id)
                && id != own),
{
    let candidates = family_candidates(members);
    let kept = candidates.filter(other_than(own));
    lemma_sorted_distinct(kept);
    assert forall|id: Seq<char>| kept.contains(id) <==> (candidates.contains(id) && id
        != own) by {
        if kept.contains(id) {
            let k = choose|k: int| 0 <= k < kept.len() && kept[k] == id;
            candidates.lemma_filter_pred(other_than(own), k);
            candidates.lemma_filter_contains_rev(other_than(own), id);
        }
        if candidates.contains(id) && id != own {
            let k = choose|k: int| 0 <= k < candidates.len() && candidates[k] == id;
            candidates.lemma_filter_contains(other_than(own), k);
        }
    }
    assert(kept.contains(own) <==> (candidates.contains(own) && own != own));
    assert(sorted_distinct(kept).contains(own) <==> kept.contains(own));
}

/// The trimmed symbols of the classifications of the scheme CPCI, in order.
fn cpc_symbols_of(classifications: &Vec<PatentClassification>) -> (symbols: Vec<String>)
    ensures
        symbols.deep_view() == cpc_symbols(classifications.deep_view()),
{
    let ghost all = classifications.deep_view();
    let mut symbols: Vec<String> = Vec::new();
    let mut i: usize = 0;
    assert(symbols.deep_view() =~= cpc_symbols(all.take(0)));
    while i < classifications.len()
        invariant
            i <= classifications.len(),
            all == classifications.deep_view(),
            symbols.deep_view() == cpc_symbols(all.take(i as int)),
        decreases classifications.len() - i,
    {
        let classification = &classifications[i];
        proof {
            assert(all.take(i + 1) =~= all.take(i as int).push(classification.deep_view()));
            all.take(i as int).lemma_filter_push(classification.deep_view(), is_cpci());
        }
        let ghost before = symbols.deep_view();
        if classification.scheme.as_str().eq("CPCI") {
            let symbol = trim(classification.classification_symbol.as_str());
            symbols.push(symbol);
            assert(symbols.deep_view() =~= before.push(symbol@));
            assert(symbols.deep_view() =~= cpc_symbols(all.take(i + 1)));
        }
        i += 1;
    }
    assert(all.take(classifications@.len() as int) =~= all);
    symbols
}

/// The listed citations, in order.
fn citation_texts_of(citations: &Vec<Citation>) -> (texts: Vec<String>)
    ensures
        texts.deep_view() == citations.deep_view().filter_map(citation_text()),
{
    let ghost all = citations.deep_view();
    let mut texts: Vec<String> = Vec::new();
    let mut i: usize = 0;
    assert(texts.deep_view() =~= all.take(0).filter_map(citation_text()));
    while i < citations.len()
        invariant
            i <= citations.len(),
            all == citations.deep_view(),
            texts.deep_view() == all.take(i as int).filter_map(citation_text()),
        decreases citations.len() - i,
    {
        let citation = &citations[i];
        proof {
            all.lemma_filter_map_take_succ(citation_text(), i as int);
            assert(all[i as int] == citation.deep_view());
        }
        let ghost before = texts.deep_view();
        match &citation.cited_id {
            Some(id) => {
                let categories = join(&citation.categories, ",");
                let mut text = concatenated(id.as_str(), " (");
                text.append(categories.as_str());
                text.append(")");
                texts.push(text);
                assert(texts.deep_view() =~= before.push(text@));
            },
            None => {},
        }
        assert(texts.deep_view() =~= all.take(i + 1).filter_map(citation_text()));
        i += 1;
    }
    assert(all.take(citations@.len() as int) =~= all);
    texts
}

/// Appends the ids of the docdb references of one family member.
fn append_docdb_ids(references: &Vec<PublicationReference>, ids: &mut Vec<String>)
    ensures
        final(ids).deep_view() == old(ids).deep_view() + docdb_ids(references.deep_view()),
{
    let ghost all = references.deep_view();
    let ghost start = ids.deep_view();
    let mut i: usize = 0;
    assert(ids.deep_view() =~= start + docdb_ids(all.take(0)));
    while i < references.len()
        invariant
            i <= references.len(),
            all == references.deep_view(),
            ids.deep_view() == start + docdb_ids(all.take(i as int)),
        decreases references.len() - i,
    {
        let reference = &references[i];
        proof {
            assert(all.take(i + 1) =~= all.take(i as int).push(reference.deep_view()));
            all.take(i as int).lemma_filter_push(reference.deep_view(), is_docdb());
        }
        let ghost before = ids.deep_view();
        if reference.data_format.as_str().eq("docdb") {
            let id = make_canonical_id(
                reference.document_id.country.as_str(),
                reference.document_id.doc_number.as_str(),
                reference.document_id.kind.as_str(),
            );
            ids.push(id);
            assert(ids.deep_view() =~= before.push(id@));
            assert(ids.deep_view() =~= start + docdb_ids(all.take(i + 1)));
        }
        i += 1;
    }
    assert(all.take(references@.len() as int) =~= all);
}

/// The family ids of a document whose own id is `own`.
fn family_ids_of(members: &Vec<FamilyMember>, own: &str) -> (ids: Vec<String>)
    ensures
        ids.deep_view() == family_ids(members.deep_view(), own@),
{
    let ghost all = members.deep_view();
    let mut candidates: Vec<String> = Vec::new();
    let mut i: usize = 0;
    assert(candidates.deep_view() =~= family_candidates(all.take(0)));
    while i < members.len()
        invariant
            i <= members.len(),
            all == members.deep_view(),
            candidates.deep_view() == family_candidates(all.take(i as int)),
        decreases members.len() - i,
    {
        proof {
            assert(all.take(i + 1).drop_last() =~= all.take(i as int));
            assert(all.take(i + 1).last() == members@[i as int].deep_view());
        }
        append_docdb_ids(&members[i].publication_references, &mut candidates);
        i += 1;
    }
    assert(all.take(members@.len() as int) =~= all);
    let ghost found = candidates.deep_view();
    let mut kept: Vec<String> = Vec::new();
    let mut k: usize = 0;
    assert(kept.deep_view() =~= found.take(0).filter(other_than(own@)));
    while k < candidates.len()
        invariant
            k <= candidates.len(),
            found == candidates.deep_view(),
            kept.deep_view() == found.take(k as int).filter(other_than(own@)),
        decreases candidates.len() - k,
    {
        proof {
            assert(found.take(k + 1) =~= found.take(k as int).push(candidates@[k as int]@));
            found.take(k as int).lemma_filter_push(candidates@[k as int]@, other_than(own@));
        }
        let ghost before = kept.deep_view();
        if !candidates[k].as_str().eq(own) {
            let id = candidates[k].clone();
            kept.push(id);
            assert(kept.deep_view() =~= before.push(id@));
        }
        k += 1;
    }
    assert(found.take(candidates@.len() as int) =~= found);
    sort_distinct(&kept)
}

impl PatentRecord {
    /// The record of `document`.
    pub fn of_document(document: &ExchangeDocument) -> (record: Self)
        ensures
            record.deep_view() == record_of(document.deep_view()),
    {
        let patent_id = document.patent_id();
        let cpc_list = match &document.patent_classifications {
            Some(classifications) => {
                let symbols = cpc_symbols_of(&classifications.patent_classifications);
                join(&symbols, ";")
            },
            None => String::new(),
        };
        let citations = match &document.references_cited {
            Some(references) => {
                let texts = citation_texts_of(&references.citations);
                join(&texts, ";")
            },
            None => String::new(),
        };
        let family_patents = match &document.patent_family {
            Some(family) => {
                let ids = family_ids_of(&family.family_members, patent_id.as_str());
                join(&ids, ";")
            },
            None => String::new(),
        };
        PatentRecord {
            patent_id,
            status: document.status.clone(),
            cpc_list,
            citations,
            family_patents,
        }
    }

    /// The five fields, in column order.
    pub fn fields(&self) -> (fields: Vec<String>)
        ensures
            fields.deep_view() == record_fields(self.deep_view()),
    {
        let mut fields: Vec<String> = Vec::new();
        fields.push(self.patent_id.clone());
        fields.push(self.status.clone());
        fields.push(self.cpc_list.clone());
        fields.push(self.citations.clone());
        fields.push(self.family_patents.clone());
        assert(fields.deep_view() =~= record_fields(self.deep_view()));
        fields
    }

    /// The record as a line of the output.
    pub fn to_csv_line(&self) -> (line: String)
        ensures
            line@ == csv_line(record_fields(self.deep_view())),
    {
        let fields = self.fields();
        encode_record(&fields)
    }
}

/// Reads an `exchange-document` element and projects it.
pub open spec fn record_parser() -> spec_fn(XmlNode) -> Result<RecordModel, ParseError> {
    |node: XmlNode|
        match document_of(node) {
            Ok(document) => Ok(record_of(document)),
            Err(error) => Err(error),
        }
}

/// The records of one source file: one for each `exchange-document` element
/// of its tree, in document order. A document that cannot be read fails the
/// file.
pub open spec fn records_of(root: XmlNode) -> Result<Seq<RecordModel>, ParseError> {
    try_map(elements_named(root, "exchange-document"@), record_parser())
}

/// The records of one source file, whose tree is `root`.
pub fn process_single_xml(root: &XmlNode) -> (result: Result<Vec<PatentRecord>, ParseError>)
    ensures
        parsed(result) == records_of(*root),
{
    let nodes = root.find_elements_named("exchange-document");
    let mut records: Vec<PatentRecord> = Vec::new();
    let mut i: usize = 0;
    assert(records.deep_view() =~= Seq::<RecordModel>::empty());
    while i < nodes.len()
        invariant
            i <= nodes.len(),
            targets(nodes@) == elements_named(*root, "exchange-document"@),
            try_map(targets(nodes@).take(i as int), record_parser()) == Ok::<
                Seq<RecordModel>,
                ParseError,
            >(records.deep_view()),
        decreases nodes.len() - i,
    {
        proof {
            let next = targets(nodes@).take(i + 1);
            assert(next.drop_last() =~= targets(nodes@).take(i as int));
            assert(next.last() == *nodes@[i as int]);
        }
        match ExchangeDocument::from_node(nodes[i]) {
            Ok(document) => {
                let record = PatentRecord::of_document(&document);
                let ghost before = records.deep_view();
                records.push(record);
                assert(records.deep_view() =~= before.push(record.deep_view()));
            },
            Err(error) => {
                proof {
                    lemma_try_map_prefix_error(targets(nodes@), record_parser(), i + 1);
                }
                return Err(error);
            },
        }
        i += 1;
    }
    assert(targets(nodes@).take(nodes@.len() as int) =~= targets(nodes@));
    Ok(records)
}

/// The records of several source files, file by file. The first file that
/// fails gives the error of the whole.
pub open spec fn file_records(files: Seq<XmlNode>) -> Result<Seq<RecordModel>, ParseError>
    decreases files.len(),
{
    if files.len() == 0 {
        Ok(Seq::empty())
    } else {
        match file_records(files.drop_last()) {
            Err(error) => Err(error),
            Ok(done) => match records_of(files.last()) {
                Err(error) => Err(error),
                Ok(records) => Ok(done + records),
            },
        }
    }
}

/// The records of `first` followed by `second` are those of `first`, then
/// those of `second`; the first failure is the failure of both together.
pub proof fn lemma_file_records_concat(first: Seq<XmlNode>, second: Seq<XmlNode>)
    ensures
        file_records(first + second) == match file_records(first) {
            Err(error) => Err(error),
            Ok(done) => match file_records(second) {
                Err(error) => Err(error),
                Ok(more) => Ok(done + more),
            },
        },
    decreases second.len(),
{
    if second.len() == 0 {
        assert(first + second =~= first);
        if let Ok(done) = file_records(first) {
            assert(done + Seq::<RecordModel>::empty() =~= done);
        }
    } else {
        let all = first + second;
        assert(all.drop_last() =~= first + second.drop_last());
        assert(all.last() == second.last());
        lemma_file_records_concat(first, second.drop_last());
        if let Ok(done) = file_records(first) {
            if let Ok(middle) = file_records(second.drop_last()) {
                if let Ok(last) = records_of(second.last()) {
                    assert((done + middle) + last =~= done + (middle + last));
                }
            }
        }
    }
}

/// The records of the files `files[start..end]`, file by file.
pub fn process_batch(files: &Vec<XmlNode>, start: usize, end: usize) -> (result: Result<
    Vec<PatentRecord>,
    ParseError,
>)
    requires
        start <= end <= files.len(),
    ensures
        parsed(result) == file_records(files@.subrange(start as int, end as int)),
{
    let ghost batch = files@.subrange(start as int, end as int);
    let mut records: Vec<PatentRecord> = Vec::new();
    let mut i: usize = start;
    assert(records.deep_view() =~= Seq::<RecordModel>::empty());
    assert(batch.take(0) =~= Seq::<XmlNode>::empty());
    while i < end
        invariant
            start <= i <= end <= files.len(),
            batch == files@.subrange(start as int, end as int),
            file_records(batch.take(i - start)) == Ok::<Seq<RecordModel>, ParseError>(
                records.deep_view(),
            ),
        decreases end - i,
    {
        proof {
            let next = batch.take(i - start + 1);
            assert(next.drop_last() =~= batch.take(i - start));
            assert(next.last() == files@[i as int]);
            assert(batch =~= next + batch.skip(i - start + 1));
            lemma_file_records_concat(next, batch.skip(i - start + 1));
        }
        match process_single_xml(&files[i]) {
            Ok(mut found) => {
                let ghost before = records.deep_view();
                let ghost added = found.deep_view();
                records.append(&mut found);
                assert(records.deep_view() =~= before + added);
            },
            Err(error) => {
                return Err(error);
            },
        }
        i += 1;
    }
    assert(batch.take(end - start) =~= batch);
    Ok(records)
}

/// The lines of the records, one after the other.
pub open spec fn rows_text(records: Seq<RecordModel>) -> Seq<char>
    decreases records.len(),
{
    if records.len() == 0 {
        Seq::empty()
    } else {
        rows_text(records.drop_last()) + csv_line(record_fields(records.last()))
    }
}

/// The lines of `first` followed by `second` are the lines of `first`, then
/// those of `second`.
pub proof fn lemma_rows_text_concat(first: Seq<RecordModel>, second: Seq<RecordModel>)
    ensures
        rows_text(first + second) == rows_text(first) + rows_text(second),
    decreases second.len(),
{
    if second.len() == 0 {
        assert(first + second =~= first);
        assert(rows_text(first) + rows_text(second) =~= rows_text(first));
    } else {
        assert((first + second).drop_last() =~= first + second.drop_last());
        assert((first + second).last() == second.last());
        lemma_rows_text_concat(first, second.drop_last());
        assert(rows_text(first + second) =~= rows_text(first) + rows_text(second));
    }
}

/// Appends the lines of `records` to `sink`.
pub fn write_records(records: &Vec<PatentRecord>, sink: &mut String)
    ensures
        final(sink)@ == old(sink)@ + rows_text(records.deep_view()),
{
    let ghost all = records.deep_view();
    let mut i: usize = 0;
    assert(sink@ =~= old(sink)@ + rows_text(all.take(0)));
    while i < records.len()
        invariant
            i <= records.len(),
            all == records.deep_view(),
            sink@ == old(sink)@ + rows_text(all.take(i as int)),
        decreases records.len() - i,
    {
        proof {
            assert(all.take(i + 1).drop_last() =~= all.take(i as int));
            assert(all.take(i + 1).last() == records@[i as int].deep_view());
        }
        let line = records[i].to_csv_line();
        sink.append(line.as_str());
        assert(sink@ =~= old(sink)@ + rows_text(all.take(i + 1)));
        i += 1;
    }
    assert(all.take(records@.len() as int) =~= all);
}

/// Where the batch that starts at `start` ends, among `total` files: after
/// `batch_size` files, or at the last file.
pub open spec fn batch_end_of(start: int, total: int, batch_size: int) -> int {
    if total - start <= batch_size {
        total
    } else {
        start + batch_size
    }
}

/// Where the batch that starts at `start` ends, among `total` files.
pub fn batch_end(start: usize, total: usize, batch_size: usize) -> (end: usize)
    requires
        start <= total,
    ensures
        end == batch_end_of(start as int, total as int, batch_size as int),
{
    if total - start <= batch_size {
        total
    } else {
        start + batch_size
    }
}

/// What a run over `files` in batches of `batch_size` writes and how it ends.
/// Batch after batch, the records of a batch are written once all its files
/// have been read; the first batch with a file that fails writes nothing and
/// ends the run with that file's error.
pub open spec fn projected(files: Seq<XmlNode>, batch_size: int) -> (
    Seq<RecordModel>,
    Option<ParseError>,
)
    decreases files.len(),
{
    if files.len() == 0 || batch_size <= 0 {
        (Seq::empty(), None)
    } else {
        let end = batch_end_of(0, files.len() as int, batch_size);
        match file_records(files.take(end)) {
            Err(error) => (Seq::empty(), Some(error)),
            Ok(records) => {
                let (more, failure) = projected(files.skip(end), batch_size);
                (records + more, failure)
            },
        }
    }
}

/// Whatever the batch size, a run fails exactly when one of the files fails,
/// and with the error of the first such file; a run that does not fail
/// writes the records of all files in their order.
pub proof fn lemma_batch_size_is_immaterial(files: Seq<XmlNode>, batch_size: int)
    requires
        batch_size > 0,
    ensures
        match file_records(files) {
            Ok(records) => projected(files, batch_size) == (records, None::<ParseError>),
            Err(error) => projected(files, batch_size).1 == Some(error),
        },
    decreases files.len(),
{
    if files.len() == 0 {
    } else {
        let end = batch_end_of(0, files.len() as int, batch_size);
        let head = files.take(end);
        let tail = files.skip(end);
        assert(files =~= head + tail);
        lemma_file_records_concat(head, tail);
        if file_records(head) is Ok {
            lemma_batch_size_is_immaterial(tail, batch_size);
        }
    }
}

/// What a run over `files` in batches of `batch_size` writes: the header
/// line, then the lines of the records.
pub open spec fn output_of(files: Seq<XmlNode>, batch_size: int) -> Seq<char> {
    csv_line(header_fields()) + rows_text(projected(files, batch_size).0)
}

/// Two runs over the same files with the same batch size, into sinks that
/// held the same, leave the same in them and end alike.
pub proof fn lemma_projection_is_repeatable(
    files: Seq<XmlNode>,
    batch_size: int,
    before: Seq<char>,
    first: (Seq<char>, Option<ParseError>),
    second: (Seq<char>, Option<ParseError>),
)
    requires
        first.0 == before + output_of(files, batch_size),
        first.1 == projected(files, batch_size).1,
        second.0 == before + output_of(files, batch_size),
        second.1 == projected(files, batch_size).1,
    ensures
        first == second,
{
}

/// Runs that do not fail write the same whatever the batch size.
pub proof fn lemma_output_without_failure(files: Seq<XmlNode>, one: int, other: int)
    requires
        one > 0,
        other > 0,
        file_records(files) is Ok,
    ensures
        output_of(files, one) == output_of(files, other),
        projected(files, one).1 is None,
        projected(files, other).1 is None,
{
    lemma_batch_size_is_immaterial(files, one);
    lemma_batch_size_is_immaterial(files, other);
}

/// Projects `files` in batches of `batch_size` and writes the output to
/// `sink`: first the header line, then, batch after batch, the line of each
/// record. A file that cannot be read ends the run with its error; the lines
/// of the batches before its own stay written.
pub fn parse_all_to_csv(files: &Vec<XmlNode>, batch_size: usize, sink: &mut String) -> (result:
    Result<(), ParseError>)
    requires
        batch_size > 0,
    ensures
        final(sink)@ == old(sink)@ + output_of(files@, batch_size as int),
        match result {
            Ok(()) => projected(files@, batch_size as int).1 is None,
            Err(error) => projected(files@, batch_size as int).1 == Some(error),
        },
{
    let header = header_line();
    sink.append(header.as_str());
    let ghost begun = sink@;
    let ghost mut written: Seq<RecordModel> = Seq::empty();
    let mut start: usize = 0;
    proof {
        assert(files@.skip(0) =~= files@);
        assert(begun + rows_text(written) =~= begun);
        assert(written + projected(files@, batch_size as int).0 =~= projected(
            files@,
            batch_size as int,
        ).0);
    }
    while start < files.len()
        invariant
            start <= files.len(),
            batch_size > 0,
            begun == old(sink)@ + csv_line(header_fields()),
            sink@ == begun + rows_text(written),
            projected(files@, batch_size as int).0 == written + projected(
                files@.skip(start as int),
                batch_size as int,
            ).0,
            projected(files@, batch_size as int).1 == projected(
                files@.skip(start as int),
                batch_size as int,
            ).1,
        decreases files.len() - start,
    {
        let end = batch_end(start, files.len(), batch_size);
        let ghost rest = files@.skip(start as int);
        proof {
            assert(rest.take(end - start) =~= files@.subrange(start as int, end as int));
            assert(rest.skip(end - start) =~= files@.skip(end as int));
        }
        match process_batch(files, start, end) {
            Ok(records) => {
                write_records(&records, sink);
                proof {
                    lemma_rows_text_concat(written, records.deep_view());
                    let more = projected(files@.skip(end as int), batch_size as int).0;
                    assert(written + (records.deep_view() + more) =~= (written
                        + records.deep_view()) + more);
                    written = written + records.deep_view();
                    assert(sink@ =~= begun + rows_text(written));
                }
            },
            Err(error) => {
                proof {
                    assert(written + Seq::<RecordModel>::empty() =~= written);
                    assert(sink@ =~= old(sink)@ + csv_line(header_fields()) + rows_text(written));
                }
                return Err(error);
            },
        }
        start = end;
    }
    proof {
        assert(files@.skip(start as int) =~= Seq::<XmlNode>::empty());
        assert(written + Seq::<RecordModel>::empty() =~= written);
        assert(sink@ =~= old(sink)@ + csv_line(header_fields()) + rows_text(written));
    }
    Ok(())
}

} // verus!
