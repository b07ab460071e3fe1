use vstd::prelude::*;

verus! {

/// The category of a media file.
#[derive(Debug, Clone, Copy, PartialEq, Eq, Structural)]
pub enum FileType {
    Image,
    Video,
    Document,
    Audio,
    Archive,
    Other,
}

/// A calendar date and time of day in UTC.
#[derive(Debug, Clone, Copy, PartialEq, Eq, Structural)]
pub struct Timestamp {
    pub year: i32,
    pub month: u32,
    pub day: u32,
    pub hour: u32,
    pub minute: u32,
    pub second: u32,
}

/// Everything known about one scanned file.
#[derive(Debug, Clone)]
pub struct FileMetadata {
    pub path: String,
    pub file_name: String,
    pub file_size: u64,
    pub file_type: FileType,
    pub created_at: Option<Timestamp>,
    pub modified_at: Option<Timestamp>,
    /// Capture date of photos and videos.
    pub date_taken: Option<Timestamp>,
    pub width: Option<u32>,
    pub height: Option<u32>,
    /// Length of a video or audio file, in seconds.
    pub duration: Option<u32>,
    pub page_count: Option<u32>,
    /// Lower-case hex SHA-256 digest of the file's bytes.
    pub hash: String,
    pub is_screenshot: bool,
    pub is_duplicate: bool,
    pub camera_make: Option<String>,
    pub camera_model: Option<String>,
}

#[derive(Debug, Clone, Copy, PartialEq, Eq, Structural)]
pub struct FileTypeStats {
    pub images: usize,
    pub videos: usize,
    pub documents: usize,
    pub audio: usize,
    pub archives: usize,
    pub other: usize,
}

#[derive(Debug, Clone, Copy, PartialEq, Eq, Structural)]
pub struct QualityIssues {
    pub screenshots: usize,
    pub duplicates: usize,
    /// Images with fewer pixels than 1920 x 1080.
    pub low_resolution: usize,
    /// Images under 500 KiB.
    pub small_files: usize,
    /// Images without a capture date.
    pub missing_metadata: usize,
    /// Files whose name looks like a meme or a download.
    pub potential_memes: usize,
}

#[derive(Debug, Clone, Copy)]
pub struct ScanStats {
    pub total_files: usize,
    pub file_types: FileTypeStats,
    pub screenshots: usize,
    pub duplicates: usize,
    pub total_size: u64,
    pub date_range: Option<(Timestamp, Timestamp)>,
    pub quality: QualityIssues,
}

#[derive(Debug, Clone)]
pub struct ScanResult {
    pub root_path: String,
    pub files: Vec<FileMetadata>,
    pub stats: ScanStats,
}

#[derive(Debug, Clone, Copy, PartialEq, Eq, Structural)]
pub enum OrganizationStrategy {
    /// `YYYY/MM-MonthName`
    Date,
    /// `YYYY`
    Year,
    /// `YYYY/MM`
    YearMonth,
    /// One folder per file type.
    FileType,
    /// `YYYY/MM-MonthName/<TypeFolder>`
    DateAndType,
}

#[derive(Debug, Clone, Copy, PartialEq, Eq, Structural)]
pub enum OperationMode {
    /// Keep the originals.
    Copy,
    /// Remove the originals once copied.
    Move,
}

/// One destination folder of a plan and the files routed to it.
#[derive(Debug, Clone)]
pub struct FolderPreview {
    pub path: String,
    pub file_count: usize,
    pub total_size: u64,
    /// Names of the files that go here.
    pub files: Vec<String>,
    /// Full source paths of the same files, in the same order.
    pub sources: Vec<String>,
}

#[derive(Debug, Clone)]
pub struct OrganizationPlan {
    pub destination_root: String,
    pub strategy: OrganizationStrategy,
    pub mode: OperationMode,
    pub folders: Vec<FolderPreview>,
    pub total_files: usize,
    pub total_size: u64,
    /// Files routed to `Unknown` for want of a date.
    pub files_without_dates: usize,
}

#[derive(Debug, Clone, Copy, PartialEq, Eq, Structural)]
pub enum OperationStatus {
    Success,
    Failed,
    Skipped,
}

#[derive(Debug, Clone)]
pub struct FileOperation {
    pub source_path: String,
    pub destination_path: String,
    pub status: OperationStatus,
    pub error_message: Option<String>,
}

#[derive(Debug, Clone)]
pub struct OperationResult {
    pub success: bool,
    pub operations: Vec<FileOperation>,
    pub successful_count: usize,
    pub failed_count: usize,
    pub skipped_count: usize,
    pub total_size_processed: u64,
    pub duration_ms: u64,
    pub timestamp: Timestamp,
}

} // verus!
