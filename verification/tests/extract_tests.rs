use epo_processor::extract::{
    archive_extension, archive_kind, directories_to_process, extract_file, plan_extraction,
    plan_from_parts, process_directory, select_archives, str_ends_with, zip_entry_target,
    ArchiveKind, DirectoryEntry, DirectoryPlan, ExtractAction, ExtractError, ExtractEvent,
    ExtractState, ExtractionPlan, ZipEntryTarget,
};
use epo_processor::paths::{has_extension, select_documents};

fn plan(kind: ArchiveKind, source: &str, output_dir: &str, output_file: Option<&str>) -> ExtractionPlan {
    ExtractionPlan {
        kind,
        source: source.to_string(),
        output_dir: output_dir.to_string(),
        output_file: output_file.map(|s| s.to_string()),
    }
}

fn strings(items: &[&str]) -> Vec<String> {
    items.iter().map(|s| s.to_string()).collect()
}

#[test]
fn suffix_is_found_at_the_end_only() {
    assert!(str_ends_with("archive.tar", ".tar"));
    assert!(str_ends_with(".tar", ".tar"));
    assert!(str_ends_with("x", ""));
    assert!(str_ends_with("", ""));
    assert!(!str_ends_with("tar", ".tar"));
    assert!(!str_ends_with("archive.tar.old", ".tar"));
    assert!(!str_ends_with("archive.TAR", ".tar"));
    assert!(str_ends_with("dir/", "/"));
    assert!(!str_ends_with("dir/file", "/"));
}

#[test]
fn kind_goes_by_extension_and_stem() {
    assert_eq!(archive_kind("gz", "data.tar"), Some(ArchiveKind::TarGzip));
    assert_eq!(archive_kind("gz", "data.xml"), Some(ArchiveKind::Gzip));
    assert_eq!(archive_kind("gz", "tar"), Some(ArchiveKind::Gzip));
    assert_eq!(archive_kind("tar", "data"), Some(ArchiveKind::Tar));
    assert_eq!(archive_kind("zip", "data.tar"), Some(ArchiveKind::Zip));
    assert_eq!(archive_kind("txt", "data"), None);
    assert_eq!(archive_kind("GZ", "data"), None);
    assert_eq!(archive_kind("", "data"), None);
    assert_eq!(archive_kind("tgz", "data"), None);
}

#[test]
fn plan_for_each_kind_of_archive() {
    assert_eq!(
        plan_extraction("/data/in/a.tar.gz"),
        Ok(plan(ArchiveKind::TarGzip, "/data/in/a.tar.gz", "/data/in", None))
    );
    assert_eq!(
        plan_extraction("/data/in/a.xml.gz"),
        Ok(plan(ArchiveKind::Gzip, "/data/in/a.xml.gz", "/data/in", Some("/data/in/a.xml")))
    );
    assert_eq!(plan_extraction("/data/b.tar"), Ok(plan(ArchiveKind::Tar, "/data/b.tar", "/data", None)));
    assert_eq!(plan_extraction("rel/c.zip"), Ok(plan(ArchiveKind::Zip, "rel/c.zip", "rel", None)));
}

#[test]
fn plan_for_an_archive_in_the_current_directory() {
    assert_eq!(plan_extraction("c.zip"), Ok(plan(ArchiveKind::Zip, "c.zip", "", None)));
    assert_eq!(plan_extraction("c.gz"), Ok(plan(ArchiveKind::Gzip, "c.gz", "", Some("c"))));
}

#[test]
fn plan_rejects_an_unsupported_extension() {
    assert_eq!(
        plan_extraction("/data/readme.txt"),
        Err(ExtractError::Unsupported { extension: "txt".to_string() })
    );
    assert_eq!(
        plan_extraction("/data/archive.ZIP"),
        Err(ExtractError::Unsupported { extension: "ZIP".to_string() })
    );
}

#[test]
fn plan_rejects_a_path_without_its_parts() {
    assert_eq!(plan_extraction("/data/noextension"), Err(ExtractError::NoExtension));
    assert_eq!(plan_extraction("/data/.gz"), Err(ExtractError::NoExtension));
    assert_eq!(plan_extraction("/"), Err(ExtractError::NoParent));
    assert_eq!(plan_extraction(""), Err(ExtractError::NoParent));
    assert_eq!(plan_extraction("data/.."), Err(ExtractError::NoFileStem));
}

#[test]
fn plan_from_parts_reports_the_first_missing_part() {
    let some = |s: &str| Some(s.to_string());
    assert_eq!(plan_from_parts("p", None, None, None), Err(ExtractError::NoParent));
    assert_eq!(plan_from_parts("p", some("d"), None, None), Err(ExtractError::NoFileStem));
    assert_eq!(plan_from_parts("p", some("d"), some("s"), None), Err(ExtractError::NoExtension));
    assert_eq!(
        plan_from_parts("p", some("d"), some("s"), some("rar")),
        Err(ExtractError::Unsupported { extension: "rar".to_string() })
    );
    assert_eq!(
        plan_from_parts("d/s.tar", some("d"), some("s"), some("tar")),
        Ok(plan(ArchiveKind::Tar, "d/s.tar", "d", None))
    );
    assert_eq!(
        plan_from_parts("d/s.gz", some("d"), some("s"), some("gz")),
        Ok(plan(ArchiveKind::Gzip, "d/s.gz", "d", Some("d/s")))
    );
}

#[test]
fn extraction_begins_with_unpacking_as_planned() {
    assert_eq!(
        extract_file("/data/a.zip", true, ExtractState::Start, ExtractEvent::Begin),
        (
            ExtractState::Unpacking,
            ExtractAction::Unpack { plan: plan(ArchiveKind::Zip, "/data/a.zip", "/data", None) }
        )
    );
}

#[test]
fn extraction_of_an_unsupported_file_ends_at_once() {
    assert_eq!(
        extract_file("/data/a.rar", true, ExtractState::Start, ExtractEvent::Begin),
        (
            ExtractState::Done,
            ExtractAction::Finish { result: Err(ExtractError::Unsupported { extension: "rar".to_string() }) }
        )
    );
}

#[test]
fn extraction_removes_the_archive_after_unpacking_where_asked() {
    assert_eq!(
        extract_file("/data/a.zip", true, ExtractState::Unpacking, ExtractEvent::Unpacked { ok: true }),
        (ExtractState::Deleting, ExtractAction::Delete { path: "/data/a.zip".to_string() })
    );
    assert_eq!(
        extract_file("/data/a.zip", true, ExtractState::Deleting, ExtractEvent::Deleted { ok: true }),
        (ExtractState::Done, ExtractAction::Finish { result: Ok(()) })
    );
}

#[test]
fn extraction_keeps_the_archive_where_not_asked_to_remove_it() {
    assert_eq!(
        extract_file("/data/a.zip", false, ExtractState::Unpacking, ExtractEvent::Unpacked { ok: true }),
        (ExtractState::Done, ExtractAction::Finish { result: Ok(()) })
    );
}

#[test]
fn extraction_keeps_an_archive_that_could_not_be_unpacked() {
    for delete in [true, false] {
        assert_eq!(
            extract_file("/data/a.zip", delete, ExtractState::Unpacking, ExtractEvent::Unpacked { ok: false }),
            (ExtractState::Done, ExtractAction::Finish { result: Err(ExtractError::Unpack) })
        );
    }
}

#[test]
fn extraction_fails_when_the_archive_cannot_be_removed() {
    assert_eq!(
        extract_file("/data/a.zip", true, ExtractState::Deleting, ExtractEvent::Deleted { ok: false }),
        (ExtractState::Done, ExtractAction::Finish { result: Err(ExtractError::Delete) })
    );
}

#[test]
fn extraction_rejects_an_event_out_of_turn() {
    let out_of_turn = (ExtractState::Done, ExtractAction::Finish { result: Err(ExtractError::OutOfTurn) });
    assert_eq!(
        extract_file("/data/a.zip", true, ExtractState::Start, ExtractEvent::Unpacked { ok: true }),
        out_of_turn
    );
    assert_eq!(
        extract_file("/data/a.zip", true, ExtractState::Unpacking, ExtractEvent::Deleted { ok: true }),
        out_of_turn
    );
    assert_eq!(extract_file("/data/a.zip", true, ExtractState::Done, ExtractEvent::Begin), out_of_turn);
}

#[test]
fn zip_entry_that_ends_with_a_slash_is_a_directory() {
    assert_eq!(
        zip_entry_target("/out", "docs/"),
        ZipEntryTarget::Directory { path: "/out/docs/".to_string() }
    );
}

#[test]
fn zip_entry_without_a_final_slash_is_a_file_with_its_parent() {
    assert_eq!(
        zip_entry_target("/out", "docs/2024/a.xml"),
        ZipEntryTarget::File {
            path: "/out/docs/2024/a.xml".to_string(),
            parent: Some("/out/docs/2024".to_string()),
        }
    );
    assert_eq!(
        zip_entry_target("/out", "a.xml"),
        ZipEntryTarget::File { path: "/out/a.xml".to_string(), parent: Some("/out".to_string()) }
    );
    assert_eq!(
        zip_entry_target("", "a.xml"),
        ZipEntryTarget::File { path: "a.xml".to_string(), parent: Some("".to_string()) }
    );
}

#[test]
fn archive_extensions_are_gz_zip_and_tar() {
    assert!(archive_extension("gz"));
    assert!(archive_extension("zip"));
    assert!(archive_extension("tar"));
    assert!(!archive_extension("xml"));
    assert!(!archive_extension("Zip"));
    assert!(!archive_extension(""));
    assert!(!archive_extension("tar.gz"));
}

#[test]
fn archives_of_a_directory_are_its_files_with_an_archive_extension() {
    let entry = |path: &str, is_file: bool| DirectoryEntry { path: path.to_string(), is_file };
    let entries = vec![
        entry("/d/a.gz", true),
        entry("/d/notes.txt", true),
        entry("/d/b.zip", true),
        entry("/d/folder.gz", false),
        entry("/d/c.tar", true),
        entry("/d/plain", true),
        entry("/d/d.tar.gz", true),
        entry("/d/e.xml", true),
    ];
    assert_eq!(select_archives(&entries), strings(&["/d/a.gz", "/d/b.zip", "/d/c.tar", "/d/d.tar.gz"]));
    assert_eq!(select_archives(&Vec::new()), Vec::<String>::new());
}

#[test]
fn directories_are_processed_once_each_in_the_order_found() {
    let found = strings(&["/a", "/a/b", "/a", "/c", "/a/b", "/a/b/c"]);
    assert_eq!(directories_to_process(&found), strings(&["/a", "/a/b", "/c", "/a/b/c"]));
    assert_eq!(directories_to_process(&Vec::new()), Vec::<String>::new());
    assert_eq!(directories_to_process(&strings(&["/x", "/x", "/x"])), strings(&["/x"]));
}

#[test]
fn extension_is_compared_as_it_stands() {
    assert!(has_extension("/a/b.xml", "xml"));
    assert!(!has_extension("/a/b.XML", "xml"));
    assert!(!has_extension("/a/b.xml.gz", "xml"));
    assert!(!has_extension("/a/xml", "xml"));
    assert!(!has_extension("/a/.xml", "xml"));
}

#[test]
fn documents_are_the_paths_with_the_extension_xml() {
    let paths = strings(&["/a/x.xml", "/a/y.XML", "/a/z.xml.gz", "/a/dir.xml/w.txt", "/a/w.xml"]);
    assert_eq!(select_documents(&paths), strings(&["/a/x.xml", "/a/w.xml"]));
}

#[test]
fn directory_that_cannot_be_read_is_passed_over() {
    assert_eq!(process_directory(None), DirectoryPlan::Skip);
}

#[test]
fn directory_without_archives_is_passed_over() {
    let entry = |path: &str, is_file: bool| DirectoryEntry { path: path.to_string(), is_file };
    assert_eq!(process_directory(Some(&Vec::new())), DirectoryPlan::Skip);
    let entries = vec![entry("/d/a.xml", true), entry("/d/sub.zip", false), entry("/d/b", true)];
    assert_eq!(process_directory(Some(&entries)), DirectoryPlan::Skip);
}

#[test]
fn directory_with_archives_has_them_extracted() {
    let entry = |path: &str, is_file: bool| DirectoryEntry { path: path.to_string(), is_file };
    let entries = vec![entry("/d/a.xml", true), entry("/d/b.tar", true), entry("/d/c.zip", true)];
    assert_eq!(
        process_directory(Some(&entries)),
        DirectoryPlan::Extract { archives: strings(&["/d/b.tar", "/d/c.zip"]) }
    );
}
