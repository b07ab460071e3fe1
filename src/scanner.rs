use vstd::prelude::*;
use vstd::seq_lib::seq_to_set_is_finite;
use crate::classify::{
    classify_extension, is_suspicious_name, media_category, screenshot_by_name_and_size,
    screenshot_rule, suspicious_name,
};
use crate::dates::{bytes_view, capture_date, capture_date_from_fields, is_before, ts_before};
use crate::organizer::size_sum;
use crate::text::{hex_lower, hex_string, lower_of, lowercase};
use crate::types::{
    FileMetadata, FileType, FileTypeStats, QualityIssues, ScanResult, ScanStats, Timestamp,
};

verus! {

/// The SHA-256 digest of `data`.
pub uninterp spec fn sha256_of(data: Seq<u8>) -> Seq<u8>;

/// Width and height that the image header in `data` declares, if its format is recognised.
pub uninterp spec fn decoded_dimensions(data: Seq<u8>) -> Option<(u32, u32)>;

/// The text values of the primary IFD's `DateTimeOriginal` and `DateTime` EXIF tags
/// in the file `data`; `None` for a tag that is absent or holds no ASCII value.
pub uninterp spec fn exif_date_texts(data: Seq<u8>) -> (
    Option<Seq<Seq<u8>>>,
    Option<Seq<Seq<u8>>>,
);

pub open spec fn texts_view(v: Option<Vec<Vec<u8>>>) -> Option<Seq<Seq<u8>>> {
    match v {
        Some(x) => Some(bytes_view(x@)),
        None => None,
    }
}

/// Relies on `sha2::Sha256::digest`: the 32-byte SHA-256 digest of `data`.
#[verifier::external_body]
fn sha256_digest(data: &[u8]) -> (r: Vec<u8>)
    ensures
        r@ == sha256_of(data@),
        r@.len() == 32,
{
    <sha2::Sha256 as sha2::Digest>::digest(data).to_vec()
}

/// Relies on `image::ImageReader`: the format guessed from the leading bytes, then
/// `into_dimensions` reads the header's width and height.
#[verifier::external_body]
fn image_dimensions(data: &[u8]) -> (r: Option<(u32, u32)>)
    ensures
        r == decoded_dimensions(data@),
{
    image::ImageReader::new(std::io::Cursor::new(data)).with_guessed_format().ok()?.into_dimensions().ok()
}

/// Relies on `exif::Reader::read_from_container` and `Exif::get_field`: the ASCII values
/// of `DateTimeOriginal` and `DateTime` in the primary IFD.
#[verifier::external_body]
fn exif_date_fields(data: &[u8]) -> (r: (Option<Vec<Vec<u8>>>, Option<Vec<Vec<u8>>>))
    ensures
        (texts_view(r.0), texts_view(r.1)) == exif_date_texts(data@),
{
    let mut cursor = std::io::Cursor::new(data);
    let exif = match exif::Reader::new().read_from_container(&mut cursor) {
        Ok(exif) => exif,
        Err(_) => return (None, None),
    };
    let text = |tag| match exif.get_field(tag, exif::In::PRIMARY).map(|f| &f.value) {
        Some(exif::Value::Ascii(v)) => Some(v.clone()),
        _ => None,
    };
    (text(exif::Tag::DateTimeOriginal), text(exif::Tag::DateTime))
}

/// The lower-case hex SHA-256 digest of `data`.
pub fn calculate_hash(data: &[u8]) -> (r: String)
    ensures
        r@ == hex_lower(sha256_of(data@)),
{
    let digest = sha256_digest(data);
    hex_string(digest.as_slice())
}

/// The capture date recorded in the EXIF data of the file `data`.
pub fn extract_exif_date(data: &[u8]) -> (r: Option<Timestamp>)
    ensures
        r == capture_date(exif_date_texts(data@).0, exif_date_texts(data@).1),
{
    let (original, generic) = exif_date_fields(data);
    capture_date_from_fields(&original, &generic)
}

/// What the file system says of one file.
#[derive(Debug, Clone)]
pub struct FileFacts {
    pub path: String,
    pub file_name: String,
    pub file_size: u64,
    pub created_at: Option<Timestamp>,
    pub modified_at: Option<Timestamp>,
}

/// The screenshot heuristic on a file name as it stands and the image's dimensions.
pub open spec fn is_screenshot_file(name: Seq<char>, width: Option<u32>, height: Option<u32>) -> bool {
    screenshot_rule(lower_of(name), width, height)
}

/// The record of an image with file-system facts `facts` and bytes `data`.
pub open spec fn image_record_ok(r: FileMetadata, facts: FileFacts, data: Seq<u8>) -> bool {
    let dims = decoded_dimensions(data);
    let width = match dims {
        Some((w, _)) => Some(w),
        None => None,
    };
    let height = match dims {
        Some((_, h)) => Some(h),
        None => None,
    };
    let taken = capture_date(exif_date_texts(data).0, exif_date_texts(data).1);
    &&& r.path@ == facts.path@
    &&& r.file_name@ == facts.file_name@
    &&& r.file_size == facts.file_size
    &&& r.file_type == FileType::Image
    &&& r.created_at == facts.created_at
    &&& r.modified_at == facts.modified_at
    &&& r.date_taken == if taken is Some { taken } else { facts.modified_at }
    &&& r.width == width
    &&& r.height == height
    &&& r.duration is None
    &&& r.page_count is None
    &&& r.hash@ == hex_lower(sha256_of(data))
    &&& r.is_screenshot == is_screenshot_file(facts.file_name@, width, height)
    &&& !r.is_duplicate
    &&& r.camera_make is None
    &&& r.camera_model is None
}

/// The record of a video with file-system facts `facts` and bytes `data`.
pub open spec fn video_record_ok(r: FileMetadata, facts: FileFacts, data: Seq<u8>) -> bool {
    &&& r.path@ == facts.path@
    &&& r.file_name@ == facts.file_name@
    &&& r.file_size == facts.file_size
    &&& r.file_type == FileType::Video
    &&& r.created_at == facts.created_at
    &&& r.modified_at == facts.modified_at
    &&& r.date_taken is None
    &&& r.width is None
    &&& r.height is None
    &&& r.duration is None
    &&& r.page_count is None
    &&& r.hash@ == hex_lower(sha256_of(data))
    &&& !r.is_screenshot
    &&& !r.is_duplicate
    &&& r.camera_make is None
    &&& r.camera_model is None
}

/// How many of `recs` satisfy `p`.
pub open spec fn count_where(recs: Seq<FileMetadata>, p: spec_fn(FileMetadata) -> bool) -> nat
    decreases recs.len(),
{
    if recs.len() == 0 {
        0
    } else {
        count_where(recs.drop_last(), p) + if p(recs.last()) {
            1nat
        } else {
            0nat
        }
    }
}

/// An image with fewer pixels than 1920 x 1080.
pub open spec fn is_low_resolution(f: FileMetadata) -> bool {
    f.file_type == FileType::Image && f.width is Some && f.height is Some && (f.width->0 as int) * (
    f.height->0 as int) < 1920 * 1080
}

/// An image under 500 KiB.
pub open spec fn is_small_image(f: FileMetadata) -> bool {
    f.file_type == FileType::Image && f.file_size < 500 * 1024
}

/// An image without a capture date.
pub open spec fn lacks_capture_date(f: FileMetadata) -> bool {
    f.file_type == FileType::Image && f.date_taken is None
}

pub open spec fn looks_like_meme(f: FileMetadata) -> bool {
    suspicious_name(lower_of(f.file_name@))
}

/// Record `i` has the same hash as an earlier record.
pub open spec fn repeats_earlier_hash(recs: Seq<FileMetadata>, i: int) -> bool {
    exists|j: int| 0 <= j < i && #[trigger] recs[j].hash@ == recs[i].hash@
}

/// Sum over groups of equal hashes of the group's size less one.
pub open spec fn duplicate_count(recs: Seq<FileMetadata>) -> nat
    decreases recs.len(),
{
    if recs.len() == 0 {
        0
    } else {
        duplicate_count(recs.drop_last()) + if repeats_earlier_hash(recs, recs.len() - 1) {
            1nat
        } else {
            0nat
        }
    }
}

/// The date a record contributes to the scan's date range.
pub open spec fn scan_date(f: FileMetadata) -> Option<Timestamp> {
    if f.date_taken is Some {
        f.date_taken
    } else {
        f.modified_at
    }
}

/// `range` stretched to take in `d`.
pub open spec fn widen(range: Option<(Timestamp, Timestamp)>, d: Option<Timestamp>) -> Option<
    (Timestamp, Timestamp),
> {
    match d {
        None => range,
        Some(x) => match range {
            None => Some((x, x)),
            Some((lo, hi)) => Some(
                (
                    if ts_before(x, lo) {
                        x
                    } else {
                        lo
                    },
                    if ts_before(hi, x) {
                        x
                    } else {
                        hi
                    },
                ),
            ),
        },
    }
}

/// Earliest and latest date over the records that have one.
pub open spec fn date_range_of(recs: Seq<FileMetadata>) -> Option<(Timestamp, Timestamp)>
    decreases recs.len(),
{
    if recs.len() == 0 {
        None
    } else {
        widen(date_range_of(recs.drop_last()), scan_date(recs.last()))
    }
}

pub open spec fn capped(n: nat) -> u64 {
    if n > u64::MAX {
        u64::MAX
    } else {
        n as u64
    }
}

/// The statistics of the record set `recs`.
pub open spec fn stats_of(recs: Seq<FileMetadata>) -> ScanStats {
    let screenshots = count_where(recs, |f: FileMetadata| f.is_screenshot) as usize;
    let duplicates = duplicate_count(recs) as usize;
    ScanStats {
        total_files: recs.len() as usize,
        file_types: FileTypeStats {
            images: count_where(recs, |f: FileMetadata| f.file_type == FileType::Image) as usize,
            videos: count_where(recs, |f: FileMetadata| f.file_type == FileType::Video) as usize,
            documents: count_where(recs, |f: FileMetadata| f.file_type == FileType::Document) as usize,
            audio: count_where(recs, |f: FileMetadata| f.file_type == FileType::Audio) as usize,
            archives: count_where(recs, |f: FileMetadata| f.file_type == FileType::Archive) as usize,
            other: count_where(recs, |f: FileMetadata| f.file_type == FileType::Other) as usize,
        },
        screenshots,
        duplicates,
        total_size: capped(size_sum(recs)),
        date_range: date_range_of(recs),
        quality: QualityIssues {
            screenshots,
            duplicates,
            low_resolution: count_where(recs, |f: FileMetadata| is_low_resolution(f)) as usize,
            small_files: count_where(recs, |f: FileMetadata| is_small_image(f)) as usize,
            missing_metadata: count_where(recs, |f: FileMetadata| lacks_capture_date(f)) as usize,
            potential_memes: count_where(recs, |f: FileMetadata| looks_like_meme(f)) as usize,
        },
    }
}

proof fn lemma_prefix_step(recs: Seq<FileMetadata>, i: int)
    requires
        0 <= i < recs.len(),
    ensures
        recs.take(i + 1).drop_last() == recs.take(i),
        recs.take(i + 1).last() == recs[i],
        recs.take(i + 1).len() == i + 1,
        repeats_earlier_hash(recs.take(i + 1), i) == repeats_earlier_hash(recs, i),
{
    assert(recs.take(i + 1).drop_last() =~= recs.take(i));
    if repeats_earlier_hash(recs, i) {
        let j = choose|j: int| 0 <= j < i && #[trigger] recs[j].hash@ == recs[i].hash@;
        assert(recs.take(i + 1)[j] == recs[j]);
    }
    if repeats_earlier_hash(recs.take(i + 1), i) {
        let j = choose|j: int|
            0 <= j < i && #[trigger] recs.take(i + 1)[j].hash@ == recs.take(i + 1)[i].hash@;
        assert(recs.take(i + 1)[j] == recs[j]);
    }
}

proof fn lemma_count_bound(recs: Seq<FileMetadata>, p: spec_fn(FileMetadata) -> bool)
    ensures
        count_where(recs, p) <= recs.len(),
    decreases recs.len(),
{
    if recs.len() > 0 {
        lemma_count_bound(recs.drop_last(), p);
    }
}

/// Whether record `i` repeats the hash of an earlier one.
fn hash_seen_before(files: &Vec<FileMetadata>, i: usize) -> (r: bool)
    requires
        i < files@.len(),
    ensures
        r == repeats_earlier_hash(files@, i as int),
{
    let mut j: usize = 0;
    while j < i
        invariant
            i < files@.len(),
            j <= i,
            forall|k: int| 0 <= k < j ==> #[trigger] files@[k].hash@ != files@[i as int].hash@,
        decreases i - j,
    {
        if files[j].hash == files[i].hash {
            return true;
        }
        j = j + 1;
    }
    false
}

/// Type counts, duplicates, quality issues, total size and date range of `files`.
pub fn compute_stats(files: &Vec<FileMetadata>) -> (r: ScanStats)
    ensures
        r == stats_of(files@),
{
    let ghost recs = files@;
    let mut images: usize = 0;
    let mut videos: usize = 0;
    let mut documents: usize = 0;
    let mut audio: usize = 0;
    let mut archives: usize = 0;
    let mut other: usize = 0;
    let mut screenshots: usize = 0;
    let mut duplicates: usize = 0;
    let mut low_resolution: usize = 0;
    let mut small_files: usize = 0;
    let mut missing_metadata: usize = 0;
    let mut potential_memes: usize = 0;
    let mut total_size: u64 = 0;
    let mut date_range: Option<(Timestamp, Timestamp)> = None;
    let mut i: usize = 0;
    proof {
        assert(recs.take(0) =~= Seq::<FileMetadata>::empty());
    }
    while i < files.len()
        invariant
            recs == files@,
            i <= recs.len(),
            images == count_where(recs.take(i as int), |f: FileMetadata| f.file_type == FileType::Image),
            videos == count_where(recs.take(i as int), |f: FileMetadata| f.file_type == FileType::Video),
            documents == count_where(
                recs.take(i as int),
                |f: FileMetadata| f.file_type == FileType::Document,
            ),
            audio == count_where(recs.take(i as int), |f: FileMetadata| f.file_type == FileType::Audio),
            archives == count_where(
                recs.take(i as int),
                |f: FileMetadata| f.file_type == FileType::Archive,
            ),
            other == count_where(recs.take(i as int), |f: FileMetadata| f.file_type == FileType::Other),
            screenshots == count_where(recs.take(i as int), |f: FileMetadata| f.is_screenshot),
            duplicates == duplicate_count(recs.take(i as int)),
            low_resolution == count_where(recs.take(i as int), |f: FileMetadata| is_low_resolution(f)),
            small_files == count_where(recs.take(i as int), |f: FileMetadata| is_small_image(f)),
            missing_metadata == count_where(
                recs.take(i as int),
                |f: FileMetadata| lacks_capture_date(f),
            ),
            potential_memes == count_where(recs.take(i as int), |f: FileMetadata| looks_like_meme(f)),
            duplicates <= i,
            total_size == capped(size_sum(recs.take(i as int))),
            date_range == date_range_of(recs.take(i as int)),
        decreases recs.len() - i,
    {
        let f = &files[i];
        proof {
            lemma_prefix_step(recs, i as int);
            lemma_count_bound(recs.take(i as int), |f: FileMetadata| f.file_type == FileType::Image);
            lemma_count_bound(recs.take(i as int), |f: FileMetadata| f.file_type == FileType::Video);
            lemma_count_bound(recs.take(i as int), |f: FileMetadata| f.file_type == FileType::Document);
            lemma_count_bound(recs.take(i as int), |f: FileMetadata| f.file_type == FileType::Audio);
            lemma_count_bound(recs.take(i as int), |f: FileMetadata| f.file_type == FileType::Archive);
            lemma_count_bound(recs.take(i as int), |f: FileMetadata| f.file_type == FileType::Other);
            lemma_count_bound(recs.take(i as int), |f: FileMetadata| f.is_screenshot);
            lemma_count_bound(recs.take(i as int), |f: FileMetadata| is_low_resolution(f));
            lemma_count_bound(recs.take(i as int), |f: FileMetadata| is_small_image(f));
            lemma_count_bound(recs.take(i as int), |f: FileMetadata| lacks_capture_date(f));
            lemma_count_bound(recs.take(i as int), |f: FileMetadata| looks_like_meme(f));
        }
        match f.file_type {
            FileType::Image => images = images + 1,
            FileType::Video => videos = videos + 1,
            FileType::Document => documents = documents + 1,
            FileType::Audio => audio = audio + 1,
            FileType::Archive => archives = archives + 1,
            FileType::Other => other = other + 1,
        }
        if f.is_screenshot {
            screenshots = screenshots + 1;
        }
        if hash_seen_before(files, i) {
            duplicates = duplicates + 1;
        }
        if f.file_type == FileType::Image {
            match (f.width, f.height) {
                (Some(w), Some(h)) => {
                    let ww = w as u64;
                    let hh = h as u64;
                    assert(ww * hh <= 4294967295u64 * 4294967295u64) by (nonlinear_arith)
                        requires
                            ww <= 4294967295u64,
                            hh <= 4294967295u64,
                    ;
                    let pixels = ww * hh;
                    if pixels < 1920 * 1080 {
                        low_resolution = low_resolution + 1;
                    }
                },
                _ => {},
            }
            if f.file_size < 500 * 1024 {
                small_files = small_files + 1;
            }
            if f.date_taken.is_none() {
                missing_metadata = missing_metadata + 1;
            }
        }
        let lower = lowercase(f.file_name.as_str());
        if is_suspicious_name(lower.as_str()) {
            potential_memes = potential_memes + 1;
        }
        total_size = total_size.saturating_add(f.file_size);
        let d = if f.date_taken.is_some() {
            f.date_taken
        } else {
            f.modified_at
        };
        match d {
            None => {},
            Some(x) => {
                date_range = match date_range {
                    None => Some((x, x)),
                    Some((lo, hi)) => Some(
                        (
                            if is_before(&x, &lo) {
                                x
                            } else {
                                lo
                            },
                            if is_before(&hi, &x) {
                                x
                            } else {
                                hi
                            },
                        ),
                    ),
                };
            },
        }
        i = i + 1;
    }
    proof {
        assert(recs.take(i as int) =~= recs);
    }
    ScanStats {
        total_files: files.len(),
        file_types: FileTypeStats { images, videos, documents, audio, archives, other },
        screenshots,
        duplicates,
        total_size,
        date_range,
        quality: QualityIssues {
            screenshots,
            duplicates,
            low_resolution,
            small_files,
            missing_metadata,
            potential_memes,
        },
    }
}

/// Scans one directory tree for media files.
pub struct Scanner {
    pub root_path: String,
}

impl Scanner {
    pub fn new(root_path: &str) -> (r: Scanner)
        ensures
            r.root_path@ == root_path@,
    {
        Scanner { root_path: root_path.to_owned() }
    }

    /// The media category of a file extension in any case.
    pub fn media_kind(&self, ext: &str) -> (r: Option<FileType>)
        ensures
            r == media_category(lower_of(ext@)),
    {
        let lower = lowercase(ext);
        classify_extension(lower.as_str())
    }

    /// Whether the image named `file_name` with these dimensions looks like a screenshot.
    pub fn is_likely_screenshot(&self, file_name: &str, width: Option<u32>, height: Option<u32>) -> (r:
        bool)
        ensures
            r == is_screenshot_file(file_name@, width, height),
    {
        let lower = lowercase(file_name);
        screenshot_by_name_and_size(lower.as_str(), width, height)
    }

    /// The scan report of the records `files` found under this scanner's root.
    pub fn scan(&self, files: Vec<FileMetadata>) -> (r: ScanResult)
        ensures
            r.root_path@ == self.root_path@,
            r.files@ == files@,
            r.stats == stats_of(files@),
    {
        let stats = compute_stats(&files);
        ScanResult { root_path: self.root_path.clone(), files, stats }
    }

    /// Whether a progress notice is due after `processed` of `total` files:
    /// every tenth file and the last one.
    pub fn progress_due(processed: usize, total: usize) -> (r: bool)
        ensures
            r == (processed % 10 == 0 || processed == total),
    {
        processed % 10 == 0 || processed == total
    }

    /// The record of an image file from its file-system facts and its bytes.
    pub fn process_image(&self, facts: FileFacts, data: &[u8]) -> (r: FileMetadata)
        ensures
            image_record_ok(r, facts, data@),
    {
        let hash = calculate_hash(data);
        let (width, height) = match image_dimensions(data) {
            Some((w, h)) => (Some(w), Some(h)),
            None => (None, None),
        };
        let taken = extract_exif_date(data);
        let date_taken = if taken.is_some() {
            taken
        } else {
            facts.modified_at
        };
        let is_screenshot = self.is_likely_screenshot(facts.file_name.as_str(), width, height);
        FileMetadata {
            path: facts.path,
            file_name: facts.file_name,
            file_size: facts.file_size,
            file_type: FileType::Image,
            created_at: facts.created_at,
            modified_at: facts.modified_at,
            date_taken,
            width,
            height,
            duration: None,
            page_count: None,
            hash,
            is_screenshot,
            is_duplicate: false,
            camera_make: None,
            camera_model: None,
        }
    }

    /// The record of a video file from its file-system facts and its bytes.
    pub fn process_video(&self, facts: FileFacts, data: &[u8]) -> (r: FileMetadata)
        ensures
            video_record_ok(r, facts, data@),
    {
        let hash = calculate_hash(data);
        FileMetadata {
            path: facts.path,
            file_name: facts.file_name,
            file_size: facts.file_size,
            file_type: FileType::Video,
            created_at: facts.created_at,
            modified_at: facts.modified_at,
            date_taken: None,
            width: None,
            height: None,
            duration: None,
            page_count: None,
            hash,
            is_screenshot: false,
            is_duplicate: false,
            camera_make: None,
            camera_model: None,
        }
    }
}

/// The content hash depends on the bytes alone: two records made from the same
/// bytes carry the same hash, whatever the rest of the file system says.
pub proof fn lemma_hash_depends_on_bytes_only(
    r1: FileMetadata,
    facts1: FileFacts,
    r2: FileMetadata,
    facts2: FileFacts,
    data: Seq<u8>,
)
    requires
        image_record_ok(r1, facts1, data) || video_record_ok(r1, facts1, data),
        image_record_ok(r2, facts2, data) || video_record_ok(r2, facts2, data),
    ensures
        r1.hash@ == r2.hash@,
        r1.hash@ == hex_lower(sha256_of(data)),
{
}

pub open spec fn hashes_of(recs: Seq<FileMetadata>) -> Seq<Seq<char>> {
    recs.map_values(|f: FileMetadata| f.hash@)
}

/// The duplicate count is the number of records less the number of distinct
/// hashes: over the groups of equal hashes, the size of each group less one.
pub proof fn lemma_duplicates_are_records_less_distinct_hashes(recs: Seq<FileMetadata>)
    ensures
        duplicate_count(recs) + hashes_of(recs).to_set().len() == recs.len(),
    decreases recs.len(),
{
    if recs.len() == 0 {
        assert(hashes_of(recs).to_set() =~= Set::<Seq<char>>::empty());
    } else {
        let init = recs.drop_last();
        let h = recs.last().hash@;
        lemma_duplicates_are_records_less_distinct_hashes(init);
        assert(hashes_of(recs) =~= hashes_of(init).push(h));
        hashes_of(init).lemma_push_to_set_commute(h);
        seq_to_set_is_finite(hashes_of(init));
        if repeats_earlier_hash(recs, recs.len() - 1) {
            let j = choose|j: int|
                0 <= j < recs.len() - 1 && #[trigger] recs[j].hash@ == recs[recs.len() - 1].hash@;
            assert(hashes_of(init)[j] == h);
            assert(hashes_of(init).to_set().contains(h));
            assert(hashes_of(init).to_set().insert(h) =~= hashes_of(init).to_set());
        } else {
            assert(!hashes_of(init).to_set().contains(h)) by {
                if hashes_of(init).contains(h) {
                    let j = choose|j: int| 0 <= j < hashes_of(init).len() && hashes_of(init)[j] == h;
                    assert(recs[j].hash@ == recs[recs.len() - 1].hash@);
                }
            }
        }
    }
}

/// The date range is empty exactly when no record has a date; otherwise its
/// ends are dates of records, and no record's date lies outside it.
pub proof fn lemma_date_range_bounds(recs: Seq<FileMetadata>)
    ensures
        date_range_of(recs) is None <==> forall|i: int|
            0 <= i < recs.len() ==> #[trigger] scan_date(recs[i]) is None,
        date_range_of(recs) is Some ==> {
            let (lo, hi) = date_range_of(recs)->0;
            &&& forall|i: int|
                0 <= i < recs.len() && #[trigger] scan_date(recs[i]) is Some ==> !ts_before(
                    scan_date(recs[i])->0,
                    lo,
                ) && !ts_before(hi, scan_date(recs[i])->0)
            &&& exists|i: int| 0 <= i < recs.len() && #[trigger] scan_date(recs[i]) == Some(lo)
            &&& exists|i: int| 0 <= i < recs.len() && #[trigger] scan_date(recs[i]) == Some(hi)
        },
    decreases recs.len(),
{
    if recs.len() > 0 {
        let init = recs.drop_last();
        let n = recs.len() - 1;
        lemma_date_range_bounds(init);
        assert forall|i: int| 0 <= i < init.len() implies #[trigger] init[i] == recs[i] by {}
        assert(recs.last() == recs[n]);
        match date_range_of(init) {
            None => {
                if scan_date(recs[n]) is None {
                    assert forall|i: int| 0 <= i < recs.len() implies #[trigger] scan_date(
                        recs[i],
                    ) is None by {
                        if i < n {
                            assert(scan_date(init[i]) is None);
                        }
                    }
                } else {
                    let x = scan_date(recs[n])->0;
                    assert forall|i: int|
                        0 <= i < recs.len() && #[trigger] scan_date(recs[i]) is Some implies !ts_before(
                        scan_date(recs[i])->0,
                        x,
                    ) && !ts_before(x, scan_date(recs[i])->0) by {
                        if i < n {
                            assert(scan_date(init[i]) is None);
                        }
                    }
                }
            },
            Some((lo, hi)) => {
                let wi = choose|i: int| 0 <= i < init.len() && #[trigger] scan_date(init[i]) == Some(
                    lo,
                );
                let wj = choose|i: int| 0 <= i < init.len() && #[trigger] scan_date(init[i]) == Some(
                    hi,
                );
                assert(scan_date(recs[wi]) == Some(lo));
                assert(scan_date(recs[wj]) == Some(hi));
                assert(!(forall|i: int| 0 <= i < recs.len() ==> #[trigger] scan_date(recs[i]) is None));
                match scan_date(recs[n]) {
                    None => {
                        assert forall|i: int|
                            0 <= i < recs.len() && #[trigger] scan_date(recs[i]) is Some implies !ts_before(
                            scan_date(recs[i])->0,
                            lo,
                        ) && !ts_before(hi, scan_date(recs[i])->0) by {
                            assert(i < n);
                            assert(scan_date(init[i]) is Some);
                        }
                    },
                    Some(x) => {
                        let nlo = if ts_before(x, lo) {
                            x
                        } else {
                            lo
                        };
                        let nhi = if ts_before(hi, x) {
                            x
                        } else {
                            hi
                        };
                        assert forall|i: int|
                            0 <= i < recs.len() && #[trigger] scan_date(recs[i]) is Some implies !ts_before(
                            scan_date(recs[i])->0,
                            nlo,
                        ) && !ts_before(nhi, scan_date(recs[i])->0) by {
                            if i < n {
                                assert(scan_date(init[i]) is Some);
                            }
                        }
                        if ts_before(x, lo) {
                            assert(scan_date(recs[n]) == Some(nlo));
                        }
                        if ts_before(hi, x) {
                            assert(scan_date(recs[n]) == Some(nhi));
                        }
                    },
                }
            },
        }
    }
}

} // verus!
