use epo_processor::config::Config;
use epo_processor::download::{
    append_decimal, download_item, download_tasks, download_url, local_path, product_url, DownloadAction,
    DownloadError, DownloadEvent, DownloadState,
};
use epo_processor::models::{Delivery, Item, Product};
use epo_processor::size::SizeError;

fn config() -> Config {
    Config {
        base_url: "https://api.example.org/v1".to_string(),
        product_id: 14,
        download_dir: "downloads".to_string(),
        download: true,
        extract: true,
        parse: true,
        output_csv: "out.csv".to_string(),
        batch_size: 4,
        delete_after_extract: true,
    }
}

fn item() -> Item {
    Item {
        item_id: 123,
        item_name: "docdb_xml_202401.zip".to_string(),
        file_size: "1.5 KB".to_string(),
        file_checksum: "2aae6c35c94fcfb415dbe95f408b9ce91ee846ed".to_string(),
        item_publication_datetime: "2024-01-01T00:00:00Z".to_string(),
    }
}

const PATH: &str = "downloads/docdb_xml_202401.zip";
const URL: &str = "https://api.example.org/v1/products/14/delivery/7/item/123/download";
const ACTUAL: &str = "2AAE6C35C94FCFB415DBE95F408B9CE91EE846ED";

fn step(state: DownloadState, event: DownloadEvent) -> (DownloadState, DownloadAction) {
    download_item(&config(), 7, &item(), state, event)
}

fn failed(error: DownloadError) -> (DownloadState, DownloadAction) {
    (DownloadState::Done, DownloadAction::Finish { result: Err(error) })
}

#[test]
fn numbers_are_written_in_base_ten() {
    for n in [0u32, 7, 10, 99, 100, 1024, 4_294_967_295] {
        let mut out = "n=".to_string();
        append_decimal(&mut out, n);
        assert_eq!(out, format!("n={}", n));
    }
}

#[test]
fn catalog_address_names_the_product() {
    assert_eq!(product_url(&config()), "https://api.example.org/v1/products/14");
}

#[test]
fn download_address_names_product_delivery_and_item() {
    assert_eq!(download_url(&config(), 7, 123), URL);
    assert_eq!(
        download_url(&config(), 0, 4_294_967_295),
        "https://api.example.org/v1/products/14/delivery/0/item/4294967295/download"
    );
}

#[test]
fn local_path_is_the_item_name_in_the_download_directory() {
    assert_eq!(local_path(&config(), &item()), PATH);
}

#[test]
fn download_begins_by_looking_for_the_file() {
    assert_eq!(
        step(DownloadState::Start, DownloadEvent::Begin),
        (DownloadState::Probing, DownloadAction::Probe { path: PATH.to_string() })
    );
}

#[test]
fn download_of_an_existing_file_ends_at_once_with_success() {
    assert_eq!(
        step(DownloadState::Probing, DownloadEvent::Probed { exists: true }),
        (DownloadState::Done, DownloadAction::Finish { result: Ok(()) })
    );
}

#[test]
fn download_twice_skips_the_second_time_without_a_request() {
    let mut exists = false;
    for round in 0..2 {
        let mut requests = 0;
        let mut state = DownloadState::Start;
        let mut event = DownloadEvent::Begin;
        let result = loop {
            let (next, action) = download_item(&config(), 7, &item(), state, event);
            state = next;
            event = match action {
                DownloadAction::Probe { .. } => DownloadEvent::Probed { exists },
                DownloadAction::Request { .. } => {
                    requests += 1;
                    DownloadEvent::Responded { ok: true }
                }
                DownloadAction::Create { .. } => {
                    exists = true;
                    DownloadEvent::Created { ok: true }
                }
                DownloadAction::Receive { position } => {
                    if position == 0 {
                        DownloadEvent::Chunk { length: 1536 }
                    } else {
                        DownloadEvent::EndOfStream
                    }
                }
                DownloadAction::Flush => DownloadEvent::Flushed { ok: true },
                DownloadAction::Hash { completed, .. } => {
                    assert_eq!(completed, 1536);
                    DownloadEvent::Hashed { checksum: Some(ACTUAL.to_string()) }
                }
                DownloadAction::Remove { .. } => {
                    exists = false;
                    DownloadEvent::Removed { ok: true }
                }
                DownloadAction::Finish { result } => break result,
            };
        };
        assert_eq!(result, Ok(()));
        assert_eq!(requests, if round == 0 { 1 } else { 0 });
        assert!(exists);
    }
}

#[test]
fn download_of_a_missing_file_requests_it_with_its_size() {
    assert_eq!(
        step(DownloadState::Probing, DownloadEvent::Probed { exists: false }),
        (
            DownloadState::Requesting { total_bytes: 1536 },
            DownloadAction::Request { url: URL.to_string(), total_bytes: 1536 }
        )
    );
}

#[test]
fn download_with_a_malformed_size_fails_before_any_request() {
    let mut odd = item();
    odd.file_size = "big".to_string();
    assert_eq!(
        download_item(&config(), 7, &odd, DownloadState::Probing, DownloadEvent::Probed { exists: false }),
        failed(DownloadError::InvalidSize { reason: SizeError::Format })
    );
    odd.file_size = "1 TB".to_string();
    assert_eq!(
        download_item(&config(), 7, &odd, DownloadState::Probing, DownloadEvent::Probed { exists: false }),
        failed(DownloadError::InvalidSize { reason: SizeError::Unit })
    );
}

#[test]
fn download_creates_the_file_once_the_request_is_answered() {
    assert_eq!(
        step(DownloadState::Requesting { total_bytes: 9 }, DownloadEvent::Responded { ok: true }),
        (DownloadState::Creating { total_bytes: 9 }, DownloadAction::Create { path: PATH.to_string() })
    );
    assert_eq!(
        step(DownloadState::Requesting { total_bytes: 9 }, DownloadEvent::Responded { ok: false }),
        failed(DownloadError::Request)
    );
}

#[test]
fn download_receives_chunks_once_the_file_is_created() {
    assert_eq!(
        step(DownloadState::Creating { total_bytes: 9 }, DownloadEvent::Created { ok: true }),
        (
            DownloadState::Receiving { total_bytes: 9, downloaded: 0 },
            DownloadAction::Receive { position: 0 }
        )
    );
    assert_eq!(
        step(DownloadState::Creating { total_bytes: 9 }, DownloadEvent::Created { ok: false }),
        failed(DownloadError::CreateFile)
    );
}

#[test]
fn download_counts_the_bytes_of_each_chunk() {
    assert_eq!(
        step(
            DownloadState::Receiving { total_bytes: 1536, downloaded: 1000 },
            DownloadEvent::Chunk { length: 536 }
        ),
        (
            DownloadState::Receiving { total_bytes: 1536, downloaded: 1536 },
            DownloadAction::Receive { position: 1536 }
        )
    );
    assert_eq!(
        step(
            DownloadState::Receiving { total_bytes: 1, downloaded: 5 },
            DownloadEvent::Chunk { length: 0 }
        ),
        (
            DownloadState::Receiving { total_bytes: 1, downloaded: 5 },
            DownloadAction::Receive { position: 5 }
        )
    );
}

#[test]
fn download_count_stops_at_the_largest_count() {
    assert_eq!(
        step(
            DownloadState::Receiving { total_bytes: 1, downloaded: u64::MAX - 1 },
            DownloadEvent::Chunk { length: 2 }
        ),
        (
            DownloadState::Receiving { total_bytes: 1, downloaded: u64::MAX },
            DownloadAction::Receive { position: u64::MAX }
        )
    );
}

#[test]
fn download_fails_when_a_chunk_cannot_be_read_or_written() {
    let receiving = DownloadState::Receiving { total_bytes: 9, downloaded: 3 };
    assert_eq!(step(receiving.clone(), DownloadEvent::ReadFailed), failed(DownloadError::ReadChunk));
    assert_eq!(step(receiving, DownloadEvent::WriteFailed), failed(DownloadError::WriteChunk));
}

#[test]
fn download_flushes_then_hashes_the_file() {
    assert_eq!(
        step(DownloadState::Receiving { total_bytes: 9, downloaded: 9 }, DownloadEvent::EndOfStream),
        (DownloadState::Flushing { total_bytes: 9 }, DownloadAction::Flush)
    );
    assert_eq!(
        step(DownloadState::Flushing { total_bytes: 9 }, DownloadEvent::Flushed { ok: true }),
        (DownloadState::Hashing, DownloadAction::Hash { path: PATH.to_string(), completed: 9 })
    );
    assert_eq!(
        step(DownloadState::Flushing { total_bytes: 9 }, DownloadEvent::Flushed { ok: false }),
        failed(DownloadError::Flush)
    );
}

#[test]
fn download_with_the_declared_checksum_succeeds_and_keeps_the_file() {
    assert_eq!(
        step(DownloadState::Hashing, DownloadEvent::Hashed { checksum: Some(ACTUAL.to_string()) }),
        (DownloadState::Done, DownloadAction::Finish { result: Ok(()) })
    );
}

#[test]
fn download_with_another_checksum_removes_the_file_and_reports_both_values() {
    let other = "DA39A3EE5E6B4B0D3255BFEF95601890AFD80709";
    let (state, action) =
        step(DownloadState::Hashing, DownloadEvent::Hashed { checksum: Some(other.to_string()) });
    assert_eq!(state, DownloadState::Removing { actual: other.to_string() });
    assert_eq!(action, DownloadAction::Remove { path: PATH.to_string() });
    assert_eq!(
        step(state, DownloadEvent::Removed { ok: true }),
        failed(DownloadError::ChecksumMismatch {
            expected: "2aae6c35c94fcfb415dbe95f408b9ce91ee846ed".to_string(),
            actual: other.to_string(),
        })
    );
}

#[test]
fn download_fails_when_the_file_cannot_be_hashed_or_removed() {
    assert_eq!(
        step(DownloadState::Hashing, DownloadEvent::Hashed { checksum: None }),
        failed(DownloadError::Digest)
    );
    assert_eq!(
        step(DownloadState::Removing { actual: "00".to_string() }, DownloadEvent::Removed { ok: false }),
        failed(DownloadError::RemoveFile)
    );
}

#[test]
fn download_rejects_an_event_out_of_turn() {
    assert_eq!(step(DownloadState::Start, DownloadEvent::EndOfStream), failed(DownloadError::OutOfTurn));
    assert_eq!(step(DownloadState::Done, DownloadEvent::Begin), failed(DownloadError::OutOfTurn));
    assert_eq!(
        step(DownloadState::Hashing, DownloadEvent::Chunk { length: 1 }),
        failed(DownloadError::OutOfTurn)
    );
    assert_eq!(
        step(DownloadState::Flushing { total_bytes: 1 }, DownloadEvent::Probed { exists: true }),
        failed(DownloadError::OutOfTurn)
    );
}

#[test]
fn tasks_are_the_items_of_all_deliveries_in_catalog_order() {
    let item_named = |id: u32, name: &str| {
        let mut it = item();
        it.item_id = id;
        it.item_name = name.to_string();
        it
    };
    let delivery = |id: u32, items: Vec<Item>| Delivery {
        delivery_id: id,
        delivery_name: format!("delivery {}", id),
        delivery_publication_datetime: "2024-01-01T00:00:00Z".to_string(),
        delivery_expiry_datetime: None,
        items,
    };
    let product = Product {
        id: 14,
        name: "front file".to_string(),
        description: "weekly".to_string(),
        deliveries: vec![
            delivery(7, vec![item_named(1, "a.zip"), item_named(2, "b.zip")]),
            delivery(8, vec![]),
            delivery(9, vec![item_named(3, "c.zip")]),
        ],
    };
    let tasks = download_tasks(&config(), &product);
    let seen: Vec<(u32, u32, &str)> =
        tasks.iter().map(|t| (t.delivery_id, t.item.item_id, t.item.item_name.as_str())).collect();
    assert_eq!(seen, vec![(7, 1, "a.zip"), (7, 2, "b.zip"), (9, 3, "c.zip")]);

    let mut off = config();
    off.download = false;
    assert!(download_tasks(&off, &product).is_empty());
}

#[test]
fn download_that_is_complete_shows_the_expected_size() {
    let (state, _) = step(
        DownloadState::Receiving { total_bytes: 1536, downloaded: 1500 },
        DownloadEvent::EndOfStream,
    );
    let (_, action) = step(state, DownloadEvent::Flushed { ok: true });
    assert_eq!(action, DownloadAction::Hash { path: PATH.to_string(), completed: 1536 });
}
