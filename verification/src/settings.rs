//! What a download is asked to do, and within which limits it is done.
use crate::link::optional_view;
use crate::text::{
    is_whitespace, trim, trim_text, trimming_leaves_nothing_of_the_class, trimming_takes_the_edges,
    CharClass,
};
use vstd::prelude::*;

verus! {

/// The number of connections where none is asked for.
pub const DEFAULT_CONNECTIONS: usize = 8;

/// The largest number of connections.
pub const MAX_CONNECTIONS: usize = 32;

/// The chunk size in MiB where none is asked for.
pub const DEFAULT_CHUNK_MB: u64 = 8;

/// The smallest chunk size.
pub const MIN_CHUNK_BYTES: u64 = 1_048_576;

/// The largest chunk size.
pub const MAX_CHUNK_BYTES: u64 = 67_108_864;

/// The largest number of connections of a balanced download.
pub const BALANCED_MAX_CONNECTIONS: usize = 16;

/// The largest chunk size of a balanced download, in MiB.
pub const BALANCED_MAX_CHUNK_MB: u64 = 16;

/// The largest number of connections of a low-impact download.
pub const LOW_CPU_MAX_CONNECTIONS: usize = 4;

/// The largest chunk size of a low-impact download, in MiB.
pub const LOW_CPU_MAX_CHUNK_MB: u64 = 4;

/// The largest number of files of a folder that are downloaded at once.
pub const MAX_PARALLEL_FOLDER_FILES: usize = 6;

/// The largest number of files of a folder that a low-impact download fetches at once.
pub const LOW_CPU_MAX_PARALLEL_FOLDER_FILES: usize = 2;

/// How much of the machine a download may use.
#[derive(Debug, Clone, Copy, PartialEq, Eq, Structural)]
pub enum PerformanceMode {
    Balanced,
    Fast,
    LowImpact,
}

/// Whether the files of a folder that failed are tried again without being asked.
#[derive(Debug, Clone, Copy, PartialEq, Eq, Structural)]
pub enum RetryMode {
    Auto,
    Manual,
}

/// A request to download a link.
#[derive(Debug)]
pub struct DownloadRequest {
    pub url: String,
    pub output_dir: Option<String>,
    pub password: Option<String>,
    pub connections: Option<usize>,
    pub chunk_size_mb: Option<u64>,
    pub overwrite: Option<bool>,
    pub verify_integrity: Option<bool>,
    pub performance_mode: Option<PerformanceMode>,
    pub retry_mode: Option<RetryMode>,
    pub low_cpu_mode: Option<bool>,
}

/// The smaller of two numbers.
pub open spec fn lesser(a: int, b: int) -> int {
    if a <= b {
        a
    } else {
        b
    }
}

/// The larger of two numbers.
pub open spec fn greater(a: int, b: int) -> int {
    if a >= b {
        a
    } else {
        b
    }
}

/// A value that was given, or else the fallback.
pub open spec fn value_or<T>(given: Option<T>, fallback: T) -> T {
    match given {
        Some(value) => value,
        None => fallback,
    }
}

/// The size in bytes of a chunk of `chunk_mb` MiB, between 1 MiB and 64 MiB.
pub open spec fn chunk_bytes(chunk_mb: int) -> int {
    lesser(greater(chunk_mb, 1), 64) * 1_048_576
}

/// The size in bytes of a chunk of `chunk_mb` MiB, within the limits.
pub fn normalize_chunk_size(chunk_mb: u64) -> (bytes: u64)
    requires
        chunk_mb * 1024 * 1024 <= u64::MAX,
    ensures
        bytes == chunk_bytes(chunk_mb as int),
{
    let at_least_one: u64 = if chunk_mb == 0 {
        1
    } else {
        chunk_mb
    };
    let asked: u64 = at_least_one * 1024 * 1024;
    let bytes: u64 = if asked < MIN_CHUNK_BYTES {
        MIN_CHUNK_BYTES
    } else if asked > MAX_CHUNK_BYTES {
        MAX_CHUNK_BYTES
    } else {
        asked
    };
    bytes - (bytes % 16)
}

/// Every chunk size lies within the limits and is made of whole AES blocks.
pub proof fn chunk_sizes_are_block_aligned(chunk_mb: int)
    ensures
        MIN_CHUNK_BYTES <= chunk_bytes(chunk_mb) <= MAX_CHUNK_BYTES,
        chunk_bytes(chunk_mb) % 16 == 0,
{
}

/// The mode that a request asks for.
pub open spec fn requested_mode(request: DownloadRequest) -> PerformanceMode {
    match request.performance_mode {
        Some(mode) => mode,
        None => if value_or(request.low_cpu_mode, false) {
            PerformanceMode::LowImpact
        } else {
            PerformanceMode::Balanced
        },
    }
}

/// The mode that a request asks for.
pub fn resolve_performance_mode(request: &DownloadRequest) -> (mode: PerformanceMode)
    ensures
        mode == requested_mode(*request),
{
    match request.performance_mode {
        Some(mode) => mode,
        None => match request.low_cpu_mode {
            Some(low) => if low {
                PerformanceMode::LowImpact
            } else {
                PerformanceMode::Balanced
            },
            None => PerformanceMode::Balanced,
        },
    }
}

/// The largest number of connections in a mode.
pub open spec fn connection_limit(mode: PerformanceMode) -> int {
    match mode {
        PerformanceMode::LowImpact => LOW_CPU_MAX_CONNECTIONS as int,
        PerformanceMode::Balanced => BALANCED_MAX_CONNECTIONS as int,
        PerformanceMode::Fast => MAX_CONNECTIONS as int,
    }
}

/// The number of connections that a mode leaves of those that are asked for.
pub fn effective_connections(requested: usize, mode: PerformanceMode) -> (connections: usize)
    ensures
        connections == greater(lesser(requested as int, connection_limit(mode)), 1),
{
    let limit: usize = match mode {
        PerformanceMode::LowImpact => LOW_CPU_MAX_CONNECTIONS,
        PerformanceMode::Balanced => BALANCED_MAX_CONNECTIONS,
        PerformanceMode::Fast => MAX_CONNECTIONS,
    };
    let within: usize = if requested <= limit {
        requested
    } else {
        limit
    };
    if within >= 1 {
        within
    } else {
        1
    }
}

/// The chunk size in MiB that a mode leaves of the one that is asked for.
pub open spec fn chunk_mb_in_mode(requested: int, mode: PerformanceMode) -> int {
    greater(
        match mode {
            PerformanceMode::LowImpact => lesser(requested, LOW_CPU_MAX_CHUNK_MB as int),
            PerformanceMode::Balanced => lesser(requested, BALANCED_MAX_CHUNK_MB as int),
            PerformanceMode::Fast => requested,
        },
        1,
    )
}

/// The chunk size in MiB that a mode leaves of the one that is asked for.
pub fn effective_chunk_mb(requested: u64, mode: PerformanceMode) -> (chunk_mb: u64)
    ensures
        chunk_mb == chunk_mb_in_mode(requested as int, mode),
{
    let within: u64 = match mode {
        PerformanceMode::LowImpact => if requested <= LOW_CPU_MAX_CHUNK_MB {
            requested
        } else {
            LOW_CPU_MAX_CHUNK_MB
        },
        PerformanceMode::Balanced => if requested <= BALANCED_MAX_CHUNK_MB {
            requested
        } else {
            BALANCED_MAX_CHUNK_MB
        },
        PerformanceMode::Fast => requested,
    };
    if within >= 1 {
        within
    } else {
        1
    }
}

/// The number of files of a folder that are downloaded at once.
pub open spec fn files_at_once(connections: int, low_cpu_mode: bool, file_count: int) -> int {
    if file_count == 0 {
        1
    } else {
        let limit = if low_cpu_mode {
            LOW_CPU_MAX_PARALLEL_FOLDER_FILES as int
        } else {
            MAX_PARALLEL_FOLDER_FILES as int
        };
        lesser(lesser(greater(connections, 1), limit), file_count)
    }
}

/// The number of files of a folder that are downloaded at once.
pub fn folder_file_parallelism(
    connections: usize,
    low_cpu_mode: bool,
    file_count: usize,
) -> (files: usize)
    ensures
        files == files_at_once(connections as int, low_cpu_mode, file_count as int),
{
    if file_count == 0 {
        return 1;
    }
    let limit: usize = if low_cpu_mode {
        LOW_CPU_MAX_PARALLEL_FOLDER_FILES
    } else {
        MAX_PARALLEL_FOLDER_FILES
    };
    let mut files: usize = if connections >= 1 {
        connections
    } else {
        1
    };
    if files > limit {
        files = limit;
    }
    if files > file_count {
        files = file_count;
    }
    files
}

/// The number of connections that each of the files downloaded at once has.
pub open spec fn connections_per_file(connections: int, file_parallelism: int) -> int {
    greater(greater(connections, 1) / greater(file_parallelism, 1), 1)
}

/// The number of connections that each of the files downloaded at once has.
pub fn folder_file_connections(connections: usize, file_parallelism: usize) -> (per_file: usize)
    ensures
        per_file == connections_per_file(connections as int, file_parallelism as int),
{
    let all: usize = if connections >= 1 {
        connections
    } else {
        1
    };
    let files: usize = if file_parallelism >= 1 {
        file_parallelism
    } else {
        1
    };
    let per_file: usize = all / files;
    if per_file >= 1 {
        per_file
    } else {
        1
    }
}

/// The files of a folder that are downloaded at once share the connections of the task: together
/// they open no more than the task may, and each has at least one.
pub proof fn files_share_the_connections(connections: int, low_cpu_mode: bool, file_count: int)
    requires
        connections >= 1,
        file_count >= 0,
    ensures
        ({
            let files = files_at_once(connections, low_cpu_mode, file_count);
            let each = connections_per_file(connections, files);
            files >= 1 && each >= 1 && files * each <= connections
        }),
{
    let files = files_at_once(connections, low_cpu_mode, file_count);
    let each = connections_per_file(connections, files);
    assert(connections / files >= 1 && files * (connections / files) <= connections)
        by (nonlinear_arith)
        requires
            1 <= files <= connections,
    ;
}

/// The limits and choices that a task is run with.
#[derive(Debug, Clone, Copy, PartialEq, Eq, Structural)]
pub struct TaskSettings {
    pub connections: usize,
    pub chunk_size: u64,
    pub overwrite: bool,
    pub verify_integrity: bool,
    pub performance_mode: PerformanceMode,
    pub retry_mode: RetryMode,
}

/// The limits and choices that a request leads to.
pub open spec fn settled(request: DownloadRequest, settings: TaskSettings) -> bool {
    let mode = requested_mode(request);
    let asked = lesser(
        greater(value_or(request.connections, DEFAULT_CONNECTIONS) as int, 1),
        MAX_CONNECTIONS as int,
    );
    &&& settings.connections == lesser(asked, connection_limit(mode))
    &&& settings.chunk_size == chunk_bytes(
        chunk_mb_in_mode(value_or(request.chunk_size_mb, DEFAULT_CHUNK_MB) as int, mode),
    )
    &&& settings.overwrite == value_or(request.overwrite, false)
    &&& settings.verify_integrity == value_or(request.verify_integrity, false)
    &&& settings.performance_mode == mode
    &&& settings.retry_mode == value_or(request.retry_mode, RetryMode::Auto)
}

/// Whether the chunk size that a request asks for can be counted in bytes.
pub open spec fn chunk_size_fits(request: DownloadRequest) -> bool {
    chunk_mb_in_mode(
        value_or(request.chunk_size_mb, DEFAULT_CHUNK_MB) as int,
        requested_mode(request),
    ) * 1024 * 1024 <= u64::MAX
}

/// Whether the chunk size that a request asks for can be counted in bytes.
pub fn has_countable_chunk_size(request: &DownloadRequest) -> (fits: bool)
    ensures
        fits == chunk_size_fits(*request),
{
    let asked: u64 = match request.chunk_size_mb {
        Some(found) => found,
        None => DEFAULT_CHUNK_MB,
    };
    effective_chunk_mb(asked, resolve_performance_mode(request)) <= u64::MAX / 1_048_576
}

/// The limits and choices that a request leads to.
pub fn settle(request: &DownloadRequest) -> (settings: TaskSettings)
    requires
        chunk_size_fits(*request),
    ensures
        settled(*request, settings),
{
    let performance_mode = resolve_performance_mode(request);
    let mut asked: usize = match request.connections {
        Some(found) => found,
        None => DEFAULT_CONNECTIONS,
    };
    if asked < 1 {
        asked = 1;
    } else if asked > MAX_CONNECTIONS {
        asked = MAX_CONNECTIONS;
    }
    let asked_mb: u64 = match request.chunk_size_mb {
        Some(found) => found,
        None => DEFAULT_CHUNK_MB,
    };
    TaskSettings {
        connections: effective_connections(asked, performance_mode),
        chunk_size: normalize_chunk_size(effective_chunk_mb(asked_mb, performance_mode)),
        overwrite: match request.overwrite {
            Some(found) => found,
            None => false,
        },
        verify_integrity: match request.verify_integrity {
            Some(found) => found,
            None => false,
        },
        performance_mode,
        retry_mode: match request.retry_mode {
            Some(found) => found,
            None => RetryMode::Auto,
        },
    }
}

/// Whatever a request asks for, its task has 1 to 32 connections, and its chunks are made of whole
/// AES blocks and hold 1 MiB to 64 MiB.
pub proof fn settled_within_limits(request: DownloadRequest, settings: TaskSettings)
    requires
        settled(request, settings),
    ensures
        1 <= settings.connections <= MAX_CONNECTIONS,
        MIN_CHUNK_BYTES <= settings.chunk_size <= MAX_CHUNK_BYTES,
        settings.chunk_size % 16 == 0,
{
}

/// The choices of the download form, as the window holds them.
pub struct FormValues {
    pub output_dir: String,
    pub password: String,
    pub performance_mode_index: i32,
    pub retry_mode_index: i32,
    pub connections_index: i32,
    pub chunk_size_index: i32,
    pub overwrite: bool,
    pub verify: bool,
}

/// What every link of one submission is downloaded with.
pub struct RequestSettings {
    pub output_dir: Option<String>,
    pub password: Option<String>,
    pub connections: usize,
    pub chunk_size_mb: u64,
    pub performance_mode: PerformanceMode,
    pub retry_mode: RetryMode,
    pub overwrite: bool,
    pub verify_integrity: bool,
}

/// Text without the white space around it, if anything is left.
pub open spec fn trimmed_or_none(value: Seq<char>) -> Option<Seq<char>> {
    if trim(value).len() == 0 {
        None
    } else {
        Some(trim(value))
    }
}

/// Text without the white space around it, if anything is left.
pub fn non_empty(value: &str) -> (text: Option<String>)
    ensures
        optional_view(text) == trimmed_or_none(value@),
{
    let inner = trim_text(value);
    if inner.as_str().is_empty() {
        None
    } else {
        Some(inner)
    }
}

/// The value at an index that a form gives, or the fallback where there is none. A negative index
/// stands for the first value.
pub open spec fn value_at<T>(values: Seq<T>, index: int, fallback: T) -> T {
    let at = greater(index, 0);
    if at < values.len() {
        values[at]
    } else {
        fallback
    }
}

/// The value at an index that a form gives, or the fallback where there is none.
pub fn indexed_value<T: Copy>(values: &[T], index: i32, fallback: T) -> (value: T)
    ensures
        value == value_at(values@, index as int, fallback),
{
    let at: usize = if index > 0 {
        index as usize
    } else {
        0
    };
    if at < values.len() {
        values[at]
    } else {
        fallback
    }
}

/// The numbers of connections that the form offers.
pub open spec fn connection_options() -> Seq<usize> {
    seq![2, 4, 8, 12, 16, 24, 32]
}

/// The chunk sizes in MiB that the form offers.
pub open spec fn chunk_options_mb() -> Seq<u64> {
    seq![2, 4, 8, 16, 32]
}

/// The mode that stands at an index of the form.
pub open spec fn mode_at(index: int) -> PerformanceMode {
    if index == 1 {
        PerformanceMode::Fast
    } else if index == 2 {
        PerformanceMode::LowImpact
    } else {
        PerformanceMode::Balanced
    }
}

impl RequestSettings {
    /// The settings that a filled-in form stands for.
    pub fn from_ui(form: &FormValues) -> (settings: RequestSettings)
        ensures
            optional_view(settings.output_dir) == trimmed_or_none(form.output_dir@),
            optional_view(settings.password) == trimmed_or_none(form.password@),
            settings.connections == value_at(
                connection_options(),
                form.connections_index as int,
                8,
            ),
            settings.chunk_size_mb == value_at(
                chunk_options_mb(),
                form.chunk_size_index as int,
                8,
            ),
            settings.performance_mode == mode_at(form.performance_mode_index as int),
            settings.retry_mode == if form.retry_mode_index == 1 {
                RetryMode::Manual
            } else {
                RetryMode::Auto
            },
            settings.overwrite == form.overwrite,
            settings.verify_integrity == form.verify,
    {
        let connections: [usize; 7] = [2, 4, 8, 12, 16, 24, 32];
        let chunks: [u64; 5] = [2, 4, 8, 16, 32];
        assert(connections@ == connection_options());
        assert(chunks@ == chunk_options_mb());
        RequestSettings {
            output_dir: non_empty(&form.output_dir),
            password: non_empty(&form.password),
            connections: indexed_value(connections.as_slice(), form.connections_index, 8),
            chunk_size_mb: indexed_value(chunks.as_slice(), form.chunk_size_index, 8),
            performance_mode: if form.performance_mode_index == 1 {
                PerformanceMode::Fast
            } else if form.performance_mode_index == 2 {
                PerformanceMode::LowImpact
            } else {
                PerformanceMode::Balanced
            },
            retry_mode: if form.retry_mode_index == 1 {
                RetryMode::Manual
            } else {
                RetryMode::Auto
            },
            overwrite: form.overwrite,
            verify_integrity: form.verify,
        }
    }

    /// The request to download `url` with these settings.
    pub fn download_request(&self, url: String) -> (request: DownloadRequest)
        ensures
            request.url == url,
            optional_view(request.output_dir) == optional_view(self.output_dir),
            optional_view(request.password) == optional_view(self.password),
            request.connections == Some(self.connections),
            request.chunk_size_mb == Some(self.chunk_size_mb),
            request.overwrite == Some(self.overwrite),
            request.verify_integrity == Some(self.verify_integrity),
            request.performance_mode == Some(self.performance_mode),
            request.retry_mode == Some(self.retry_mode),
            request.low_cpu_mode == Some(self.performance_mode == PerformanceMode::LowImpact),
    {
        DownloadRequest {
            url,
            output_dir: copy_text(&self.output_dir),
            password: copy_text(&self.password),
            connections: Some(self.connections),
            chunk_size_mb: Some(self.chunk_size_mb),
            overwrite: Some(self.overwrite),
            verify_integrity: Some(self.verify_integrity),
            performance_mode: Some(self.performance_mode),
            retry_mode: Some(self.retry_mode),
            low_cpu_mode: Some(matches!(self.performance_mode, PerformanceMode::LowImpact)),
        }
    }
}

/// A copy of optional text.
pub fn copy_text(text: &Option<String>) -> (copy: Option<String>)
    ensures
        optional_view(copy) == optional_view(*text),
{
    match text {
        Some(found) => Some(found.clone()),
        None => None,
    }
}

/// The chunk size in MiB that a size in bytes stands for.
pub open spec fn chunk_mb_of(bytes: int) -> int {
    if bytes == 0 {
        8
    } else {
        greater(bytes / 1_048_576, 1)
    }
}

/// The chunk size in MiB that a size in bytes stands for.
pub fn chunk_mb_from_bytes(value: u64) -> (chunk_mb: u64)
    ensures
        chunk_mb == chunk_mb_of(value as int),
{
    if value == 0 {
        return 8;
    }
    let whole: u64 = value / (1024 * 1024);
    if whole >= 1 {
        whole
    } else {
        1
    }
}

/// Asking again for the chunk size of a task gives a task of the same chunk size.
pub proof fn chunk_size_reads_back(chunk_mb: int)
    ensures
        chunk_bytes(chunk_mb_of(chunk_bytes(chunk_mb))) == chunk_bytes(chunk_mb),
{
    let mb = lesser(greater(chunk_mb, 1), 64);
    assert((mb * 1_048_576) / 1_048_576 == mb);
}

/// A task has as many connections as are asked for, where its mode allows them: up to 4, 16 or 32.
/// Beyond that it has as many as the mode allows. None asked for counts as 8, and zero as one.
pub proof fn connections_are_as_asked(request: DownloadRequest, settings: TaskSettings)
    requires
        settled(request, settings),
    ensures
        ({
            let most = match settings.performance_mode {
                PerformanceMode::LowImpact => 4int,
                PerformanceMode::Balanced => 16,
                PerformanceMode::Fast => 32,
            };
            match request.connections {
                Some(asked) => if asked == 0 {
                    settings.connections == 1
                } else if asked <= most {
                    settings.connections == asked
                } else {
                    settings.connections == most
                },
                None => settings.connections == 8 || (most == 4 && settings.connections == 4),
            }
        }),
{
}

/// The chunks of a task hold as many MiB as are asked for, where its mode allows them: up to 4, 16
/// or 64. Beyond that they hold as many as the mode allows. None asked for counts as 8, and zero
/// as one.
pub proof fn chunks_are_as_asked(request: DownloadRequest, settings: TaskSettings)
    requires
        settled(request, settings),
    ensures
        ({
            let most = match settings.performance_mode {
                PerformanceMode::LowImpact => 4int,
                PerformanceMode::Balanced => 16,
                PerformanceMode::Fast => 64,
            };
            match request.chunk_size_mb {
                Some(asked) => if asked == 0 {
                    settings.chunk_size == 0x10_0000
                } else if asked <= most {
                    settings.chunk_size == asked * 0x10_0000
                } else {
                    settings.chunk_size == most * 0x10_0000
                },
                None => settings.chunk_size == 8 * 0x10_0000 || (most == 4 && settings.chunk_size
                    == 4 * 0x10_0000),
            }
        }),
{
}

/// A mode that is asked for is taken, and otherwise the old switch for a low impact decides. What
/// is not asked for is off, and retries are automatic.
pub proof fn choices_are_as_asked(request: DownloadRequest, settings: TaskSettings)
    requires
        settled(request, settings),
    ensures
        request.performance_mode matches Some(mode) ==> settings.performance_mode == mode,
        request.performance_mode is None ==> (settings.performance_mode
            == PerformanceMode::LowImpact <==> request.low_cpu_mode == Some(true)),
        settings.performance_mode == PerformanceMode::Fast ==> request.performance_mode == Some(
            PerformanceMode::Fast,
        ),
        settings.overwrite <==> request.overwrite == Some(true),
        settings.verify_integrity <==> request.verify_integrity == Some(true),
        settings.retry_mode == RetryMode::Manual <==> request.retry_mode == Some(RetryMode::Manual),
{
}

/// As many files of a folder are downloaded at once as there are connections and files, but no more
/// than 6, or 2 where the impact is low, and at least one.
pub proof fn files_at_once_are_bounded(connections: int, low_cpu_mode: bool, file_count: int)
    requires
        connections >= 0,
        file_count >= 0,
    ensures
        ({
            let files = files_at_once(connections, low_cpu_mode, file_count);
            let most = if low_cpu_mode {
                2int
            } else {
                6
            };
            &&& 1 <= files <= most
            &&& connections >= 1 ==> files <= connections
            &&& file_count >= 1 ==> files <= file_count
            &&& file_count >= 1 && files < most && files < connections ==> files == file_count
            &&& file_count == 0 ==> files == 1
        }),
{
}

/// The files that are downloaded at once have as many connections each as can be dealt out evenly.
pub proof fn connections_are_dealt_out(connections: int, files: int)
    requires
        1 <= files <= connections,
    ensures
        ({
            let each = connections_per_file(connections, files);
            each * files <= connections < (each + 1) * files
        }),
{
    vstd::arithmetic::div_mod::lemma_fundamental_div_mod(connections, files);
    let q = connections / files;
    assert(q >= 1) by (nonlinear_arith)
        requires
            q == connections / files,
            1 <= files <= connections,
    ;
    assert(connections_per_file(connections, files) == q);
    assert(q * files <= connections < (q + 1) * files) by (nonlinear_arith)
        requires
            connections == files * q + connections % files,
            0 <= connections % files < files,
    ;
}

/// The connections, chunk sizes and modes that stand at the places of the form.
pub proof fn form_offers(index: int)
    ensures
        value_at(connection_options(), index, 8) == (if index <= 0 {
            2
        } else if index == 1 {
            4
        } else if index == 3 {
            12
        } else if index == 4 {
            16
        } else if index == 5 {
            24
        } else if index == 6 {
            32
        } else {
            8usize
        }),
        value_at(chunk_options_mb(), index, 8) == (if index <= 0 {
            2
        } else if index == 1 {
            4
        } else if index == 3 {
            16
        } else if index == 4 {
            32
        } else {
            8u64
        }),
        mode_at(index) == PerformanceMode::Fast <==> index == 1,
        mode_at(index) == PerformanceMode::LowImpact <==> index == 2,
{
}

/// A size in bytes stands for as many MiB as fill it, and for one where none does.
pub proof fn sizes_stand_for_whole_mib(bytes: int, mib: int)
    requires
        mib >= 1,
        mib * 0x10_0000 <= bytes < (mib + 1) * 0x10_0000,
    ensures
        chunk_mb_of(bytes) == mib,
        chunk_mb_of(0) == 8,
        forall|small: int| 0 < small < 0x10_0000 ==> #[trigger] chunk_mb_of(small) == 1,
{
    assert(bytes / 0x10_0000 == mib);
}

/// Of text with white space around it, what stands between is kept. Of white space alone nothing
/// is.
pub proof fn edges_of_a_field_are_dropped(
    before: Seq<char>,
    inner: Seq<char>,
    behind: Seq<char>,
)
    requires
        forall|i: int| 0 <= i < before.len() ==> is_whitespace(#[trigger] before[i]),
        forall|i: int| 0 <= i < behind.len() ==> is_whitespace(#[trigger] behind[i]),
        inner.len() > 0,
        !is_whitespace(inner.first()),
        !is_whitespace(inner.last()),
    ensures
        trimmed_or_none(before + inner + behind) == Some(inner),
        trimmed_or_none(before) is None,
{
    assert forall|i: int| 0 <= i < before.len() implies CharClass::Whitespace.has(
        #[trigger] before[i],
    ) by {
        assert(is_whitespace(before[i]));
    }
    assert forall|i: int| 0 <= i < behind.len() implies CharClass::Whitespace.has(
        #[trigger] behind[i],
    ) by {
        assert(is_whitespace(behind[i]));
    }
    trimming_takes_the_edges(before, inner, behind, CharClass::Whitespace);
    trimming_leaves_nothing_of_the_class(before, CharClass::Whitespace);
}

/// What is chosen in the form reaches the download: the request of the form's settings asks for
/// the modes, the numbers and the switches that stand at the chosen places.
pub proof fn choices_of_the_form_are_asked_for(
    form: &FormValues,
    settings: RequestSettings,
    url: String,
    request: DownloadRequest,
)
    requires
        call_ensures(RequestSettings::from_ui, (form,), settings),
        call_ensures(RequestSettings::download_request, (&settings, url), request),
    ensures
        request.url@ == url@,
        request.overwrite == Some(form.overwrite),
        request.verify_integrity == Some(form.verify),
        request.retry_mode == Some(
            if form.retry_mode_index == 1 {
                RetryMode::Manual
            } else {
                RetryMode::Auto
            },
        ),
        request.performance_mode == Some(
            if form.performance_mode_index == 1 {
                PerformanceMode::Fast
            } else if form.performance_mode_index == 2 {
                PerformanceMode::LowImpact
            } else {
                PerformanceMode::Balanced
            },
        ),
        request.low_cpu_mode == Some(form.performance_mode_index == 2),
        form.connections_index == 0 ==> request.connections == Some(2usize),
        form.connections_index == 1 ==> request.connections == Some(4usize),
        form.connections_index == 2 ==> request.connections == Some(8usize),
        form.connections_index == 3 ==> request.connections == Some(12usize),
        form.connections_index == 4 ==> request.connections == Some(16usize),
        form.connections_index == 5 ==> request.connections == Some(24usize),
        form.connections_index == 6 ==> request.connections == Some(32usize),
        form.chunk_size_index == 0 ==> request.chunk_size_mb == Some(2u64),
        form.chunk_size_index == 1 ==> request.chunk_size_mb == Some(4u64),
        form.chunk_size_index == 2 ==> request.chunk_size_mb == Some(8u64),
        form.chunk_size_index == 3 ==> request.chunk_size_mb == Some(16u64),
        form.chunk_size_index == 4 ==> request.chunk_size_mb == Some(32u64),
        optional_view(request.output_dir) == optional_view(settings.output_dir),
        optional_view(request.password) == optional_view(settings.password),
{
    form_offers(form.connections_index as int);
    form_offers(form.chunk_size_index as int);
    form_offers(form.performance_mode_index as int);
}

/// A chunk size can be counted in bytes unless the fast mode is asked for with one beyond all
/// files.
pub proof fn chunk_sizes_can_be_counted(request: DownloadRequest)
    ensures
        chunk_size_fits(request) <==> !(request.performance_mode == Some(PerformanceMode::Fast)
            && request.chunk_size_mb is Some && request.chunk_size_mb->0 > 0xfff_ffff_ffff),
{
}

/// A mode leaves the connections that are asked for, from one up to its own limit.
pub proof fn modes_leave_what_they_allow(
    requested: usize,
    mode: PerformanceMode,
    connections: usize,
)
    requires
        call_ensures(effective_connections, (requested, mode), connections),
    ensures
        ({
            let most: int = match mode {
                PerformanceMode::LowImpact => 4,
                PerformanceMode::Balanced => 16,
                PerformanceMode::Fast => 32,
            };
            &&& requested == 0 ==> connections == 1
            &&& 1 <= requested <= most ==> connections == requested
            &&& requested > most ==> connections == most
        }),
{
}

} // verus!
