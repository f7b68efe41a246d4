//! The download manager: where a file is fetched from and stored, how far a
//! transfer has come, and what becomes of the file once its checksum is
//! known.

use crate::checksum::{checksum_matches, checksums_agree};
use crate::config::Config;
use crate::models::{Delivery, Item, Product};
use crate::size::{size_from_tokens, size_of, split_tokens, SizeError};
use crate::text::{chars_of, concatenated};
use vstd::prelude::*;

verus! {

/// Reads a size such as `12.4 MB` as a number of bytes: a number and one of
/// the units B, KB, MB, GB, in powers of 1024, rounded down and at most the
/// largest `u64`.
pub fn parse_file_size(size_str: &str) -> (result: Result<u64, SizeError>)
    ensures
        result == size_of(size_str@),
{
    let chars = chars_of(size_str);
    let parts = split_tokens(&chars);
    if parts.len() != 2 {
        return Err(SizeError::Format);
    }
    proof {
        assert(parts.deep_view()[0] =~= parts@[0]@);
        assert(parts.deep_view()[1] =~= parts@[1]@);
    }
    size_from_tokens(&parts[0], &parts[1])
}

/// The character that writes a digit.
pub open spec fn digit_char(digit: nat) -> char {
    if digit == 0 {
        '0'
    } else if digit == 1 {
        '1'
    } else if digit == 2 {
        '2'
    } else if digit == 3 {
        '3'
    } else if digit == 4 {
        '4'
    } else if digit == 5 {
        '5'
    } else if digit == 6 {
        '6'
    } else if digit == 7 {
        '7'
    } else if digit == 8 {
        '8'
    } else {
        '9'
    }
}

/// The number `n` written in base ten, without leading zeros.
pub open spec fn decimal_text(n: nat) -> Seq<char>
    decreases n,
{
    if n < 10 {
        seq![digit_char(n)]
    } else {
        decimal_text(n / 10).push(digit_char(n % 10))
    }
}

/// The character that writes `digit`.
fn char_of_digit(digit: u32) -> (c: char)
    requires
        digit < 10,
    ensures
        c == digit_char(digit as nat),
{
    if digit == 0 {
        '0'
    } else if digit == 1 {
        '1'
    } else if digit == 2 {
        '2'
    } else if digit == 3 {
        '3'
    } else if digit == 4 {
        '4'
    } else if digit == 5 {
        '5'
    } else if digit == 6 {
        '6'
    } else if digit == 7 {
        '7'
    } else if digit == 8 {
        '8'
    } else {
        '9'
    }
}

/// Appends `n` in base ten.
pub fn append_decimal(out: &mut String, n: u32)
    ensures
        final(out)@ == old(out)@ + decimal_text(n as nat),
    decreases n,
{
    if n < 10 {
        out.push(char_of_digit(n));
        assert(out@ =~= old(out)@ + decimal_text(n as nat));
    } else {
        append_decimal(out, n / 10);
        out.push(char_of_digit(n % 10));
        assert(out@ =~= old(out)@ + decimal_text(n as nat));
    }
}

/// Where the catalog of a product is fetched from.
pub open spec fn product_url_of(base_url: Seq<char>, product_id: u32) -> Seq<char> {
    base_url + "/products/"@ + decimal_text(product_id as nat)
}

/// Where an item is downloaded from.
pub open spec fn download_url_of(
    base_url: Seq<char>,
    product_id: u32,
    delivery_id: u32,
    item_id: u32,
) -> Seq<char> {
    base_url + "/products/"@ + decimal_text(product_id as nat) + "/delivery/"@ + decimal_text(
        delivery_id as nat,
    ) + "/item/"@ + decimal_text(item_id as nat) + "/download"@
}

/// Where a downloaded item is stored.
pub open spec fn local_path_of(download_dir: Seq<char>, item_name: Seq<char>) -> Seq<char> {
    download_dir + "/"@ + item_name
}

/// The address of the catalog of the configured product.
pub fn product_url(config: &Config) -> (url: String)
    ensures
        url@ == product_url_of(config.base_url@, config.product_id),
{
    let mut url = concatenated(config.base_url.as_str(), "/products/");
    append_decimal(&mut url, config.product_id);
    url
}

/// The address from which an item of a delivery is downloaded.
pub fn download_url(config: &Config, delivery_id: u32, item_id: u32) -> (url: String)
    ensures
        url@ == download_url_of(config.base_url@, config.product_id, delivery_id, item_id),
{
    let mut url = concatenated(config.base_url.as_str(), "/products/");
    append_decimal(&mut url, config.product_id);
    url.append("/delivery/");
    append_decimal(&mut url, delivery_id);
    url.append("/item/");
    append_decimal(&mut url, item_id);
    url.append("/download");
    url
}

/// The path under which an item is stored.
pub fn local_path(config: &Config, item: &Item) -> (path: String)
    ensures
        path@ == local_path_of(config.download_dir@, item.item_name@),
{
    let mut path = concatenated(config.download_dir.as_str(), "/");
    path.append(item.item_name.as_str());
    path
}

/// One download to make: an item, and the delivery it belongs to.
#[derive(Debug)]
pub struct DownloadTask<'a> {
    pub delivery_id: u32,
    pub item: &'a Item,
}

/// An item as the task of downloading it from the delivery `delivery_id`.
pub open spec fn task_of(delivery_id: u32) -> spec_fn(Item) -> (u32, Item) {
    |item: Item| (delivery_id, item)
}

/// The tasks of one delivery: one for each of its items, in catalog order.
pub open spec fn delivery_tasks(delivery: Delivery) -> Seq<(u32, Item)> {
    delivery.items@.map_values(task_of(delivery.delivery_id))
}

/// The tasks of the deliveries, delivery by delivery.
pub open spec fn catalog_tasks(deliveries: Seq<Delivery>) -> Seq<(u32, Item)>
    decreases deliveries.len(),
{
    if deliveries.len() == 0 {
        Seq::empty()
    } else {
        catalog_tasks(deliveries.drop_last()) + delivery_tasks(deliveries.last())
    }
}

/// What the tasks say: for each, the delivery and the item.
pub open spec fn task_pairs(tasks: Seq<DownloadTask>) -> Seq<(u32, Item)> {
    tasks.map_values(|task: DownloadTask| (task.delivery_id, *task.item))
}

/// The downloads to make for a product: one for each item of each delivery,
/// in catalog order; none where the download stage is switched off.
pub fn download_tasks<'a>(config: &Config, product: &'a Product) -> (tasks: Vec<DownloadTask<'a>>)
    ensures
        task_pairs(tasks@) == if config.download {
            catalog_tasks(product.deliveries@)
        } else {
            Seq::empty()
        },
{
    let mut tasks: Vec<DownloadTask<'a>> = Vec::new();
    assert(task_pairs(tasks@) =~= Seq::<(u32, Item)>::empty());
    if !config.download {
        return tasks;
    }
    let ghost all = product.deliveries@;
    let mut i: usize = 0;
    assert(task_pairs(tasks@) =~= catalog_tasks(all.take(0)));
    while i < product.deliveries.len()
        invariant
            i <= product.deliveries.len(),
            all == product.deliveries@,
            task_pairs(tasks@) == catalog_tasks(all.take(i as int)),
        decreases product.deliveries.len() - i,
    {
        let delivery = &product.deliveries[i];
        let ghost before = task_pairs(tasks@);
        proof {
            assert(all.take(i + 1).drop_last() =~= all.take(i as int));
            assert(all.take(i + 1).last() == *delivery);
        }
        let mut k: usize = 0;
        assert(task_pairs(tasks@) =~= before + delivery.items@.take(0).map_values(
            task_of(delivery.delivery_id),
        ));
        while k < delivery.items.len()
            invariant
                k <= delivery.items.len(),
                task_pairs(tasks@) == before + delivery.items@.take(k as int).map_values(
                    task_of(delivery.delivery_id),
                ),
            decreases delivery.items.len() - k,
        {
            let ghost so_far = task_pairs(tasks@);
            tasks.push(
                DownloadTask { delivery_id: delivery.delivery_id, item: &delivery.items[k] },
            );
            proof {
                assert(task_pairs(tasks@) =~= so_far.push(
                    (delivery.delivery_id, delivery.items@[k as int]),
                ));
                assert(task_pairs(tasks@) =~= before + delivery.items@.take(k + 1).map_values(
                    task_of(delivery.delivery_id),
                ));
            }
            k += 1;
        }
        assert(delivery.items@.take(delivery.items@.len() as int) =~= delivery.items@);
        i += 1;
    }
    assert(all.take(product.deliveries@.len() as int) =~= all);
    tasks
}

/// Why a download failed.
#[derive(Debug, Clone, PartialEq, Eq)]
pub enum DownloadError {
    /// The size that the catalog states for the item is no size.
    InvalidSize { reason: SizeError },
    /// The request could not be sent.
    Request,
    /// The local file could not be created.
    CreateFile,
    /// A chunk of the response could not be read.
    ReadChunk,
    /// A chunk could not be written to the local file.
    WriteChunk,
    /// The local file could not be flushed.
    Flush,
    /// The local file could not be read back to compute its checksum.
    Digest,
    /// The file did not have the declared checksum, and could not be removed.
    RemoveFile,
    /// The file did not have the declared checksum, and was removed.
    ChecksumMismatch { expected: String, actual: String },
    /// An event came that the state of the download does not allow.
    OutOfTurn,
}

/// How far the download of one item has come.
#[derive(Debug, Clone, PartialEq, Eq)]
pub enum DownloadState {
    /// Nothing has been done.
    Start,
    /// It is being looked up whether the local file exists.
    Probing,
    /// The request is being sent.
    Requesting { total_bytes: u64 },
    /// The local file is being created.
    Creating { total_bytes: u64 },
    /// The response is being stored, chunk by chunk.
    Receiving { total_bytes: u64, downloaded: u64 },
    /// The local file is being flushed.
    Flushing { total_bytes: u64 },
    /// The checksum of the local file is being computed.
    Hashing,
    /// The local file, whose checksum is `actual`, is being removed.
    Removing { actual: String },
    /// The download has ended.
    Done,
}

/// What has happened since the last step.
#[derive(Debug, Clone, PartialEq, Eq)]
pub enum DownloadEvent {
    /// The download is to begin.
    Begin,
    /// It is known whether the local file exists.
    Probed { exists: bool },
    /// The request was answered, or could not be sent.
    Responded { ok: bool },
    /// The local file was created, or could not be.
    Created { ok: bool },
    /// A chunk of `length` bytes was read and written.
    Chunk { length: u64 },
    /// A chunk could not be read.
    ReadFailed,
    /// A chunk could not be written.
    WriteFailed,
    /// The response has no more chunks.
    EndOfStream,
    /// The local file was flushed, or could not be.
    Flushed { ok: bool },
    /// The checksum of the local file was computed, or could not be.
    Hashed { checksum: Option<String> },
    /// The local file was removed, or could not be.
    Removed { ok: bool },
}

/// What is to be done next.
#[derive(Debug, PartialEq, Eq)]
pub enum DownloadAction {
    /// Look up whether the file at `path` exists.
    Probe { path: String },
    /// Send the request to `url`; `total_bytes` are expected.
    Request { url: String, total_bytes: u64 },
    /// Create the file at `path`.
    Create { path: String },
    /// Read the next chunk and write it; `position` bytes are stored.
    Receive { position: u64 },
    /// Flush the local file.
    Flush,
    /// The transfer is complete and the progress stands at `completed`, the
    /// expected size. Compute the checksum of the file at `path`.
    Hash { path: String, completed: u64 },
    /// Remove the file at `path`.
    Remove { path: String },
    /// Report the result; nothing more is to be done.
    Finish { result: Result<(), DownloadError> },
}

/// The sum of two byte counts, or the largest count where it does not fit.
pub open spec fn progress_after(downloaded: u64, length: u64) -> u64 {
    if downloaded + length > u64::MAX {
        u64::MAX
    } else {
        (downloaded + length) as u64
    }
}

/// The action "finish with success".
pub open spec fn finishes_well(action: DownloadAction) -> bool {
    action matches DownloadAction::Finish { result: Ok(()) }
}

/// The action "finish with the error `error`", for an error that carries no
/// text.
pub open spec fn finishes_with(action: DownloadAction, error: DownloadError) -> bool {
    action matches DownloadAction::Finish { result: Err(e) } && e == error
}

/// The action "finish with a checksum mismatch" that carries both values.
pub open spec fn finishes_with_mismatch(
    action: DownloadAction,
    expected: Seq<char>,
    actual: Seq<char>,
) -> bool {
    action matches DownloadAction::Finish {
        result: Err(DownloadError::ChecksumMismatch { expected: e, actual: a }),
    } && e@ == expected && a@ == actual
}

/// One step of the download of `item`: from `state`, on `event`, to `next`
/// with `action` to be done.
///
/// A file that exists is kept as it is and nothing is fetched. Else the size
/// is read, the request sent, the file created, and the chunks stored while
/// the count of stored bytes grows. Once the file is flushed the progress
/// stands at the expected size, and the checksum of the file is computed: if
/// it is the declared one the download has succeeded, else the file is
/// removed and the mismatch reported. Whatever fails ends the download with
/// its error, and so does an event out of turn.
pub open spec fn download_step(
    config: Config,
    delivery_id: u32,
    item: Item,
    state: DownloadState,
    event: DownloadEvent,
    next: DownloadState,
    action: DownloadAction,
) -> bool {
    let path = local_path_of(config.download_dir@, item.item_name@);
    let url = download_url_of(config.base_url@, config.product_id, delivery_id, item.item_id);
    match (state, event) {
        (DownloadState::Start, DownloadEvent::Begin) => {
            &&& next is Probing
            &&& action matches DownloadAction::Probe { path: p } && p@ == path
        },
        (DownloadState::Probing, DownloadEvent::Probed { exists }) => {
            if exists {
                next is Done && finishes_well(action)
            } else {
                match size_of(item.file_size@) {
                    Err(reason) => next is Done && finishes_with(
                        action,
                        DownloadError::InvalidSize { reason },
                    ),
                    Ok(total) => {
                        &&& next == (DownloadState::Requesting { total_bytes: total })
                        &&& action matches DownloadAction::Request { url: u, total_bytes: t }
                            && u@ == url && t == total
                    },
                }
            }
        },
        (DownloadState::Requesting { total_bytes }, DownloadEvent::Responded { ok }) => {
            if ok {
                &&& next == (DownloadState::Creating { total_bytes })
                &&& action matches DownloadAction::Create { path: p } && p@ == path
            } else {
                next is Done && finishes_with(action, DownloadError::Request)
            }
        },
        (DownloadState::Creating { total_bytes }, DownloadEvent::Created { ok }) => {
            if ok {
                &&& next == (DownloadState::Receiving { total_bytes, downloaded: 0 })
                &&& action == (DownloadAction::Receive { position: 0 })
            } else {
                next is Done && finishes_with(action, DownloadError::CreateFile)
            }
        },
        (
            DownloadState::Receiving { total_bytes, downloaded },
            DownloadEvent::Chunk { length },
        ) => {
            let position = progress_after(downloaded, length);
            &&& next == (DownloadState::Receiving { total_bytes, downloaded: position })
            &&& action == (DownloadAction::Receive { position })
        },
        (DownloadState::Receiving { .. }, DownloadEvent::ReadFailed) => {
            next is Done && finishes_with(action, DownloadError::ReadChunk)
        },
        (DownloadState::Receiving { .. }, DownloadEvent::WriteFailed) => {
            next is Done && finishes_with(action, DownloadError::WriteChunk)
        },
        (DownloadState::Receiving { total_bytes, .. }, DownloadEvent::EndOfStream) => {
            next == (DownloadState::Flushing { total_bytes }) && action is Flush
        },
        (DownloadState::Flushing { total_bytes }, DownloadEvent::Flushed { ok }) => {
            if ok {
                &&& next is Hashing
                &&& action matches DownloadAction::Hash { path: p, completed } && p@ == path
                    && completed == total_bytes
            } else {
                next is Done && finishes_with(action, DownloadError::Flush)
            }
        },
        (DownloadState::Hashing, DownloadEvent::Hashed { checksum }) => {
            match checksum {
                None => next is Done && finishes_with(action, DownloadError::Digest),
                Some(computed) => {
                    if checksums_agree(item.file_checksum@, computed@) {
                        next is Done && finishes_well(action)
                    } else {
                        &&& next matches DownloadState::Removing { actual } && actual@
                            == computed@
                        &&& action matches DownloadAction::Remove { path: p } && p@ == path
                    }
                },
            }
        },
        (DownloadState::Removing { actual }, DownloadEvent::Removed { ok }) => {
            if ok {
                next is Done && finishes_with_mismatch(action, item.file_checksum@, actual@)
            } else {
                next is Done && finishes_with(action, DownloadError::RemoveFile)
            }
        },
        _ => next is Done && finishes_with(action, DownloadError::OutOfTurn),
    }
}

/// The action that ends a download with `error`.
fn fail(error: DownloadError) -> (step: (DownloadState, DownloadAction))
    ensures
        step.0 is Done,
        step.1 matches DownloadAction::Finish { result: Err(e) } && e == error,
{
    (DownloadState::Done, DownloadAction::Finish { result: Err(error) })
}

/// Takes one step of the download of `item`: given the state and what has
/// happened, the next state and what is to be done.
pub fn download_item(
    config: &Config,
    delivery_id: u32,
    item: &Item,
    state: DownloadState,
    event: DownloadEvent,
) -> (step: (DownloadState, DownloadAction))
    ensures
        download_step(*config, delivery_id, *item, state, event, step.0, step.1),
{
    match (state, event) {
        (DownloadState::Start, DownloadEvent::Begin) => {
            (DownloadState::Probing, DownloadAction::Probe { path: local_path(config, item) })
        },
        (DownloadState::Probing, DownloadEvent::Probed { exists }) => {
            if exists {
                (DownloadState::Done, DownloadAction::Finish { result: Ok(()) })
            } else {
                match parse_file_size(item.file_size.as_str()) {
                    Err(reason) => fail(DownloadError::InvalidSize { reason }),
                    Ok(total_bytes) => (
                        DownloadState::Requesting { total_bytes },
                        DownloadAction::Request {
                            url: download_url(config, delivery_id, item.item_id),
                            total_bytes,
                        },
                    ),
                }
            }
        },
        (DownloadState::Requesting { total_bytes }, DownloadEvent::Responded { ok }) => {
            if ok {
                (
                    DownloadState::Creating { total_bytes },
                    DownloadAction::Create { path: local_path(config, item) },
                )
            } else {
                fail(DownloadError::Request)
            }
        },
        (DownloadState::Creating { total_bytes }, DownloadEvent::Created { ok }) => {
            if ok {
                (
                    DownloadState::Receiving { total_bytes, downloaded: 0 },
                    DownloadAction::Receive { position: 0 },
                )
            } else {
                fail(DownloadError::CreateFile)
            }
        },
        (
            DownloadState::Receiving { total_bytes, downloaded },
            DownloadEvent::Chunk { length },
        ) => {
            let position: u64 = if length > u64::MAX - downloaded {
                u64::MAX
            } else {
                downloaded + length
            };
            (
                DownloadState::Receiving { total_bytes, downloaded: position },
                DownloadAction::Receive { position },
            )
        },
        (DownloadState::Receiving { .. }, DownloadEvent::ReadFailed) => {
            fail(DownloadError::ReadChunk)
        },
        (DownloadState::Receiving { .. }, DownloadEvent::WriteFailed) => {
            fail(DownloadError::WriteChunk)
        },
        (DownloadState::Receiving { total_bytes, .. }, DownloadEvent::EndOfStream) => {
            (DownloadState::Flushing { total_bytes }, DownloadAction::Flush)
        },
        (DownloadState::Flushing { total_bytes }, DownloadEvent::Flushed { ok }) => {
            if ok {
                (
                    DownloadState::Hashing,
                    DownloadAction::Hash { path: local_path(config, item), completed: total_bytes },
                )
            } else {
                fail(DownloadError::Flush)
            }
        },
        (DownloadState::Hashing, DownloadEvent::Hashed { checksum }) => {
            match checksum {
                None => fail(DownloadError::Digest),
                Some(computed) => {
                    if checksum_matches(item.file_checksum.as_str(), computed.as_str()) {
                        (DownloadState::Done, DownloadAction::Finish { result: Ok(()) })
                    } else {
                        (
                            DownloadState::Removing { actual: computed },
                            DownloadAction::Remove { path: local_path(config, item) },
                        )
                    }
                },
            }
        },
        (DownloadState::Removing { actual }, DownloadEvent::Removed { ok }) => {
            if ok {
                (
                    DownloadState::Done,
                    DownloadAction::Finish {
                        result: Err(
                            DownloadError::ChecksumMismatch {
                                expected: item.file_checksum.clone(),
                                actual,
                            },
                        ),
                    },
                )
            } else {
                fail(DownloadError::RemoveFile)
            }
        },
        _ => fail(DownloadError::OutOfTurn),
    }
}

/// A file that exists is kept: the download ends at once with success, and
/// nothing is requested, created or removed.
pub proof fn lemma_existing_file_is_kept(
    config: Config,
    delivery_id: u32,
    item: Item,
    next: DownloadState,
    action: DownloadAction,
)
    requires
        download_step(
            config,
            delivery_id,
            item,
            DownloadState::Probing,
            DownloadEvent::Probed { exists: true },
            next,
            action,
        ),
    ensures
        next is Done,
        finishes_well(action),
{
}

/// A request is sent in one case only: the local file was looked up and does
/// not exist.
pub proof fn lemma_request_only_for_missing_file(
    config: Config,
    delivery_id: u32,
    item: Item,
    state: DownloadState,
    event: DownloadEvent,
    next: DownloadState,
    action: DownloadAction,
)
    requires
        download_step(config, delivery_id, item, state, event, next, action),
        action is Request,
    ensures
        state is Probing,
        event == (DownloadEvent::Probed { exists: false }),
{
}

/// The count of stored bytes never falls.
pub proof fn lemma_progress_grows(
    config: Config,
    delivery_id: u32,
    item: Item,
    total_bytes: u64,
    downloaded: u64,
    event: DownloadEvent,
    next: DownloadState,
    action: DownloadAction,
)
    requires
        download_step(
            config,
            delivery_id,
            item,
            DownloadState::Receiving { total_bytes, downloaded },
            event,
            next,
            action,
        ),
    ensures
        next matches DownloadState::Receiving { downloaded: after, .. } ==> after >= downloaded,
        action matches DownloadAction::Receive { position } ==> position >= downloaded,
{
}

/// A transfer that is complete shows the expected size as its progress: the
/// size that the catalog states for the item.
pub proof fn lemma_progress_completes(
    config: Config,
    delivery_id: u32,
    item: Item,
    state: DownloadState,
    event: DownloadEvent,
    next: DownloadState,
    action: DownloadAction,
)
    requires
        download_step(config, delivery_id, item, state, event, next, action),
        action is Hash,
    ensures
        state matches DownloadState::Flushing { total_bytes } && (
        action matches DownloadAction::Hash { completed, .. } && completed == total_bytes),
{
}

/// The expected size is fixed when the request is made, as the size that the
/// catalog states, and is carried unchanged from step to step.
pub proof fn lemma_expected_size_is_kept(
    config: Config,
    delivery_id: u32,
    item: Item,
    state: DownloadState,
    event: DownloadEvent,
    next: DownloadState,
    action: DownloadAction,
)
    requires
        download_step(config, delivery_id, item, state, event, next, action),
    ensures
        next matches DownloadState::Requesting { total_bytes } ==> size_of(item.file_size@) == Ok::<
            u64,
            SizeError,
        >(total_bytes),
        next matches DownloadState::Creating { total_bytes } ==> state
            == (DownloadState::Requesting { total_bytes }),
        next matches DownloadState::Receiving { total_bytes, .. } ==> (state
            == (DownloadState::Creating { total_bytes }) || (
        state matches DownloadState::Receiving { total_bytes: before, .. } && before
            == total_bytes)),
        next matches DownloadState::Flushing { total_bytes } ==> (
        state matches DownloadState::Receiving { total_bytes: before, .. } && before
            == total_bytes),
{
}

/// Once the checksum of the stored file is known: if it is the declared one
/// the download succeeds and the file stays; else the file is removed.
pub proof fn lemma_checksum_decides(
    config: Config,
    delivery_id: u32,
    item: Item,
    computed: String,
    next: DownloadState,
    action: DownloadAction,
)
    requires
        download_step(
            config,
            delivery_id,
            item,
            DownloadState::Hashing,
            DownloadEvent::Hashed { checksum: Some(computed) },
            next,
            action,
        ),
    ensures
        checksums_agree(item.file_checksum@, computed@) ==> next is Done && finishes_well(action),
        !checksums_agree(item.file_checksum@, computed@) ==> action is Remove && (
        next matches DownloadState::Removing { actual } && actual@ == computed@),
{
}

/// A file is removed in one case only: its checksum was computed and is not
/// the declared one.
pub proof fn lemma_removal_only_on_mismatch(
    config: Config,
    delivery_id: u32,
    item: Item,
    state: DownloadState,
    event: DownloadEvent,
    next: DownloadState,
    action: DownloadAction,
)
    requires
        download_step(config, delivery_id, item, state, event, next, action),
        action is Remove,
    ensures
        state is Hashing,
        event matches DownloadEvent::Hashed { checksum: Some(computed) } && !checksums_agree(
            item.file_checksum@,
            computed@,
        ),
{
}

/// After the removal the mismatch is reported with both values: the declared
/// checksum and the computed one.
pub proof fn lemma_mismatch_reports_both(
    config: Config,
    delivery_id: u32,
    item: Item,
    actual: String,
    next: DownloadState,
    action: DownloadAction,
)
    requires
        download_step(
            config,
            delivery_id,
            item,
            DownloadState::Removing { actual },
            DownloadEvent::Removed { ok: true },
            next,
            action,
        ),
    ensures
        next is Done,
        finishes_with_mismatch(action, item.file_checksum@, actual@),
{
}

} // verus!
