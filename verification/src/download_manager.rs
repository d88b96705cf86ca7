//! The download queue: what is queued, running, paused, done or failed, the
//! progress of each download, and the decisions taken while downloading.
//!
//! The transfers themselves (HTTP requests, writing files, waiting between
//! attempts) are run by the program around the library, which reports to the
//! manager and follows its decisions. Instants are milliseconds on a monotonic
//! clock.
use vstd::prelude::*;
use crate::keyed::KeyedList;
use crate::seqs::lemma_filter_step;
use crate::text::{decimal, u32_string};

verus! {

/// Status of a download
#[derive(Debug, Clone, Copy, PartialEq, Eq, Structural)]
pub enum DownloadStatus {
    /// Download is queued but not started
    Queued,
    /// Download is actively in progress
    InProgress,
    /// Download is paused
    Paused,
    /// Download completed successfully
    Completed,
    /// Download failed
    Failed,
    /// Download was cancelled
    Cancelled,
}

/// Information about a download
#[derive(Debug, Clone)]
pub struct DownloadInfo {
    /// Unique ID for this download
    pub id: String,
    /// URL to download from
    pub url: String,
    /// Destination file path
    pub destination: String,
    /// Current status
    pub status: DownloadStatus,
    /// Total size in bytes (if known)
    pub total_size: Option<u64>,
    /// Downloaded bytes so far
    pub downloaded_bytes: u64,
    /// Time from the start to the last progress report, in milliseconds, once it
    /// is more than zero (the speed is the downloaded bytes over this time)
    pub elapsed_ms: Option<u64>,
    /// Estimated time remaining in seconds
    pub eta_seconds: Option<u64>,
    /// Number of retry attempts
    pub retry_count: u32,
    /// Error message (if failed)
    pub error: Option<String>,
    /// When the download started
    pub started_at: Option<u64>,
    /// When the download was last updated
    pub updated_at: u64,
}

/// The seconds left at the speed so far: the bytes left times the time taken over
/// the bytes done.
pub open spec fn eta_of(remaining: u64, elapsed_ms: u64, downloaded: u64) -> int
    recommends
        downloaded > 0,
{
    (remaining * elapsed_ms) / (downloaded * 1000)
}

/// A number, or the largest `u64` when it is larger.
pub open spec fn capped(x: int) -> u64 {
    if x > u64::MAX {
        u64::MAX
    } else if x < 0 {
        0
    } else {
        x as u64
    }
}

/// A number, or the largest `u64` when it is larger (as a float-to-integer cast
/// saturates).
fn saturate_u64(x: u128) -> (r: u64)
    ensures
        r == capped(x as int),
{
    if x > u64::MAX as u128 {
        u64::MAX
    } else {
        x as u64
    }
}

/// A download's information after a progress report at `now`.
pub open spec fn progressed(d: DownloadInfo, downloaded: u64, total: Option<u64>, now: u64) -> DownloadInfo {
    let base = DownloadInfo { downloaded_bytes: downloaded, total_size: total, updated_at: now, ..d };
    match d.started_at {
        Some(start) if now >= start && now - start > 0 => {
            let elapsed = (now - start) as u64;
            let eta = match total {
                Some(t) if downloaded > 0 => Some(
                    capped(eta_of(if t >= downloaded { (t - downloaded) as u64 } else { 0u64 }, elapsed, downloaded)),
                ),
                _ => d.eta_seconds,
            };
            DownloadInfo { elapsed_ms: Some(elapsed), eta_seconds: eta, ..base }
        },
        _ => base,
    }
}

impl DownloadInfo {
    /// Creates a new, queued download info at the clock's time.
    pub fn new(id: String, url: String, destination: String) -> (r: Self)
        ensures
            exists|now: u64| r == #[trigger] queued_info(id, url, destination, now),
    {
        let now = crate::clock::now_millis();
        Self::new_at(id, url, destination, now)
    }

    /// Creates a new, queued download info at `now`.
    pub fn new_at(id: String, url: String, destination: String, now: u64) -> (r: Self)
        ensures
            r == queued_info(id, url, destination, now),
    {
        Self {
            id,
            url,
            destination,
            status: DownloadStatus::Queued,
            total_size: None,
            downloaded_bytes: 0,
            elapsed_ms: None,
            eta_seconds: None,
            retry_count: 0,
            error: None,
            started_at: None,
            updated_at: now,
        }
    }

    /// Updates download progress at the clock's time.
    pub fn update_progress(&mut self, downloaded: u64, total: Option<u64>)
        ensures
            exists|now: u64| *final(self) == #[trigger] progressed(*old(self), downloaded, total, now),
    {
        let now = crate::clock::now_millis();
        self.update_progress_at(downloaded, total, now);
    }

    /// Updates download progress at `now`: the bytes and the total, and, once time
    /// has passed since the start, the time taken and the time left.
    pub fn update_progress_at(&mut self, downloaded: u64, total: Option<u64>, now: u64)
        ensures
            *final(self) == progressed(*old(self), downloaded, total, now),
    {
        self.downloaded_bytes = downloaded;
        self.total_size = total;
        match self.started_at {
            Some(start) => {
                if now >= start && now - start > 0 {
                    let elapsed = now - start;
                    self.elapsed_ms = Some(elapsed);
                    match total {
                        Some(total_bytes) => {
                            if downloaded > 0 {
                                let remaining = if total_bytes >= downloaded { total_bytes - downloaded } else { 0 };
                                assert((remaining as u128) * (elapsed as u128) <= 0xffff_ffff_ffff_ffff * 0xffff_ffff_ffff_ffff)
                                    by (nonlinear_arith)
                                    requires
                                        remaining <= 0xffff_ffff_ffff_ffff,
                                        elapsed <= 0xffff_ffff_ffff_ffff,
                                ;
                                let wide = (remaining as u128) * (elapsed as u128) / ((downloaded as u128) * 1000);
                                self.eta_seconds = Some(saturate_u64(wide));
                            }
                        },
                        None => {},
                    }
                }
            },
            None => {},
        }
        self.updated_at = now;
    }

    /// A copy of the information.
    pub fn copy(&self) -> (r: Self)
        ensures
            r == *self,
    {
        Self {
            id: self.id.clone(),
            url: self.url.clone(),
            destination: self.destination.clone(),
            status: self.status,
            total_size: self.total_size,
            downloaded_bytes: self.downloaded_bytes,
            elapsed_ms: self.elapsed_ms,
            eta_seconds: self.eta_seconds,
            retry_count: self.retry_count,
            error: match &self.error {
                Some(e) => Some(e.clone()),
                None => None,
            },
            started_at: self.started_at,
            updated_at: self.updated_at,
        }
    }
}

/// A new download, queued at `now`.
pub open spec fn queued_info(id: String, url: String, destination: String, now: u64) -> DownloadInfo {
    DownloadInfo {
        id,
        url,
        destination,
        status: DownloadStatus::Queued,
        total_size: None,
        downloaded_bytes: 0,
        elapsed_ms: None,
        eta_seconds: None,
        retry_count: 0,
        error: None,
        started_at: None,
        updated_at: now,
    }
}

/// Configuration for the download manager
#[derive(Debug, Clone)]
pub struct DownloadManagerConfig {
    /// Maximum concurrent downloads
    pub max_concurrent: usize,
    /// Maximum retry attempts for failed downloads
    pub max_retries: u32,
    /// Delay before the first retry, in seconds; it doubles for each retry after
    pub retry_delay_seconds: u64,
    /// Request timeout in seconds
    pub timeout_seconds: u64,
    /// Download chunk size for progress updates
    pub chunk_size: usize,
    /// Bandwidth throttle in bytes per second (None for unlimited)
    pub bandwidth_limit_bps: Option<u64>,
}

/// The default configuration: 3 downloads at a time, 3 attempts with a first retry delay of 5 seconds,
/// 5 minutes to time out, 8 KiB chunks, no bandwidth limit.
pub open spec fn default_download_config() -> DownloadManagerConfig {
    DownloadManagerConfig {
        max_concurrent: 3,
        max_retries: 3,
        retry_delay_seconds: 5,
        timeout_seconds: 300,
        chunk_size: 8192,
        bandwidth_limit_bps: None,
    }
}

impl Default for DownloadManagerConfig {
    fn default() -> (r: Self)
        ensures
            r == default_download_config(),
    {
        Self {
            max_concurrent: 3,
            max_retries: 3,
            retry_delay_seconds: 5,
            timeout_seconds: 300,
            chunk_size: 8192,
            bandwidth_limit_bps: None,
        }
    }
}

impl DownloadManagerConfig {
    /// A copy of the configuration.
    pub fn copy(&self) -> (r: Self)
        ensures
            r == *self,
    {
        Self {
            max_concurrent: self.max_concurrent,
            max_retries: self.max_retries,
            retry_delay_seconds: self.retry_delay_seconds,
            timeout_seconds: self.timeout_seconds,
            chunk_size: self.chunk_size,
            bandwidth_limit_bps: self.bandwidth_limit_bps,
        }
    }
}

/// What to do after an attempt of a download failed.
#[derive(Debug, Clone)]
pub enum RetryDecision {
    /// Wait this many seconds, then try again
    RetryAfter(u64),
    /// Stop: the download failed with this message
    GiveUp(String),
}

/// `base` doubled `e` times.
pub open spec fn doubled(base: nat, e: nat) -> nat
    decreases e,
{
    if e == 0 { base } else { 2 * doubled(base, (e - 1) as nat) }
}

/// The wait before retrying after the `attempts`-th failure: the base delay for
/// the first, doubled for each attempt after it, capped at `u64::MAX` seconds.
pub open spec fn backoff_delay(base: u64, attempts: u32) -> u64 {
    let d = doubled(base as nat, if attempts == 0 { 0 } else { (attempts - 1) as nat });
    if d > u64::MAX { u64::MAX } else { d as u64 }
}

proof fn lemma_doubled_mono(base: nat, i: nat, e: nat)
    requires
        i <= e,
    ensures
        doubled(base, i) <= doubled(base, e),
    decreases e,
{
    if i < e {
        lemma_doubled_mono(base, i, (e - 1) as nat);
    }
}

/// The backoff delay after the `attempts`-th failure.
fn retry_delay(base: u64, attempts: u32) -> (r: u64)
    ensures
        r == backoff_delay(base, attempts),
{
    let e: u32 = if attempts == 0 { 0 } else { attempts - 1 };
    let mut d: u64 = base;
    let mut i: u32 = 0;
    while i < e && d < u64::MAX
        invariant
            i <= e,
            d as nat == if doubled(base as nat, i as nat) > u64::MAX { u64::MAX as nat } else { doubled(base as nat, i as nat) },
        decreases e - i,
    {
        if d > u64::MAX / 2 {
            d = u64::MAX;
        } else {
            d = d * 2;
        }
        i = i + 1;
    }
    proof { lemma_doubled_mono(base as nat, i as nat, e as nat); }
    d
}

/// "Download '{id}' {rest}"
pub open spec fn download_message(id: Seq<char>, rest: Seq<char>) -> Seq<char> {
    "Download '"@ + id + rest
}

/// Holds of a download with the status.
pub open spec fn has_status(s: DownloadStatus) -> spec_fn(DownloadInfo) -> bool {
    |d: DownloadInfo| d.status == s
}

/// Holds of a download that is neither completed nor failed.
pub open spec fn not_finished() -> spec_fn(DownloadInfo) -> bool {
    |d: DownloadInfo| d.status != DownloadStatus::Completed && d.status != DownloadStatus::Failed
}

/// The milliseconds to wait after a chunk so that the bandwidth stays under the
/// limit (forever when the limit is zero).
pub open spec fn throttle_ms(chunk_len: u64, limit_bps: u64) -> int {
    if limit_bps == 0 {
        u64::MAX as int
    } else {
        capped((chunk_len * 1000) / (limit_bps as int)) as int
    }
}

/// The milliseconds to wait after a chunk of `chunk_len` bytes under a bandwidth
/// limit.
pub fn throttle_delay_ms(chunk_len: u64, limit_bps: u64) -> (r: u64)
    ensures
        r == throttle_ms(chunk_len, limit_bps),
{
    if limit_bps == 0 {
        return u64::MAX;
    }
    let wide = (chunk_len as u128) * 1000 / (limit_bps as u128);
    saturate_u64(wide)
}

/// Download manager that handles concurrent downloads with queue management
pub struct DownloadManager {
    /// Configuration
    config: DownloadManagerConfig,
    /// Active and queued downloads
    downloads: KeyedList<DownloadInfo>,
}

impl DownloadManager {
    #[verifier::type_invariant]
    spec fn inv(self) -> bool {
        self.downloads.wf()
    }

    /// The downloads by ID.
    pub closed spec fn downloads(self) -> Map<Seq<char>, DownloadInfo> {
        self.downloads@
    }

    /// The downloads in the order they were queued.
    pub closed spec fn download_list(self) -> Seq<DownloadInfo> {
        self.downloads.entries().map_values(|e: (String, DownloadInfo)| e.1)
    }

    /// The configuration.
    pub closed spec fn config(self) -> DownloadManagerConfig {
        self.config
    }

    /// Creates a new download manager with default configuration
    pub fn new() -> (r: Self)
        ensures
            r.config() == default_download_config(),
            r.downloads() == Map::<Seq<char>, DownloadInfo>::empty(),
    {
        Self::with_config(DownloadManagerConfig::default())
    }

    /// Creates a new download manager with custom configuration
    pub fn with_config(config: DownloadManagerConfig) -> (r: Self)
        ensures
            r.config() == config,
            r.downloads() == Map::<Seq<char>, DownloadInfo>::empty(),
    {
        Self { config, downloads: KeyedList::new() }
    }

    /// The configuration.
    pub fn get_config(&self) -> (r: &DownloadManagerConfig)
        ensures
            *r == self.config(),
    {
        &self.config
    }

    /// Adds a download to the queue, at the clock's time
    pub fn queue_download(&mut self, id: String, url: String, destination: String) -> (r: Result<(), String>)
        ensures
            final(self).config() == old(self).config(),
            r is Ok <==> !old(self).downloads().contains_key(id@),
            r matches Err(e) ==> e@ == download_message(id@, "' already exists"@) && final(self).downloads()
                == old(self).downloads(),
            r is Ok ==> exists|now: u64| final(self).downloads() == old(self).downloads().insert(
                id@,
                #[trigger] queued_info(id, url, destination, now),
            ),
    {
        let now = crate::clock::now_millis();
        self.queue_download_at(id, url, destination, now)
    }

    /// Adds a download to the queue at `now`, unless the ID is taken.
    pub fn queue_download_at(&mut self, id: String, url: String, destination: String, now: u64) -> (r: Result<(), String>)
        ensures
            final(self).config() == old(self).config(),
            r is Ok <==> !old(self).downloads().contains_key(id@),
            r matches Err(e) ==> e@ == download_message(id@, "' already exists"@) && final(self).downloads()
                == old(self).downloads(),
            r is Ok ==> final(self).downloads() == old(self).downloads().insert(id@, queued_info(id, url, destination, now)),
    {
        proof { use_type_invariant(&*self); }
        if self.downloads.contains_key(id.as_str()) {
            return Err(download_error(id.as_str(), "' already exists"));
        }
        let key = id.clone();
        let info = DownloadInfo::new_at(id, url, destination, now);
        let mut t = KeyedList::new();
        std::mem::swap(&mut t, &mut self.downloads);
        t.insert(key, info);
        self.downloads = t;
        Ok(())
    }

    /// Starts a queued or paused download at `now`: it is in progress from then
    /// on. Returns its URL and destination, for the transfer.
    /// Starts a queued or paused download at `now`: it is marked in progress and
    /// its URL and destination are handed back for the transfer.
    pub fn begin_download_at(&mut self, id: &str, now: u64) -> (r: Result<(String, String), String>)
        ensures
            final(self).config() == old(self).config(),
            r is Ok <==> old(self).downloads().contains_key(id@) && (old(self).downloads()[id@].status
                == DownloadStatus::Queued || old(self).downloads()[id@].status == DownloadStatus::Paused),
            r matches Err(e) ==> final(self).downloads() == old(self).downloads() && e@ == if old(
                self,
            ).downloads().contains_key(id@) {
                download_message(id@, "' is not queued or paused"@)
            } else {
                download_message(id@, "' not found"@)
            },
            r matches Ok(p) ==> p.0 == old(self).downloads()[id@].url && p.1 == old(self).downloads()[id@].destination
                && final(self).downloads() == old(self).downloads().insert(
                id@,
                DownloadInfo {
                    status: DownloadStatus::InProgress,
                    started_at: Some(now),
                    ..old(self).downloads()[id@]
                },
            ),
    {
        proof { use_type_invariant(&*self); }
        let mut t = KeyedList::new();
        std::mem::swap(&mut t, &mut self.downloads);
        let r = match t.get_mut(id) {
            Some(info) => {
                if info.status != DownloadStatus::Queued && info.status != DownloadStatus::Paused {
                    Err(download_error(id, "' is not queued or paused"))
                } else {
                    info.status = DownloadStatus::InProgress;
                    info.started_at = Some(now);
                    Ok((info.url.clone(), info.destination.clone()))
                }
            },
            None => Err(download_error(id, "' not found")),
        };
        self.downloads = t;
        r
    }

    /// Records that a transfer failed for the `attempts`-th time and decides: retry
    /// after an exponential backoff (the configured delay, doubled for each attempt
    /// after the first), or give up once the retries are used up.
    pub fn record_failed_attempt(&mut self, id: &str, attempts: u32, error: &str) -> (r: RetryDecision)
        ensures
            final(self).config() == old(self).config(),
            final(self).downloads() == if old(self).downloads().contains_key(id@) {
                old(self).downloads().insert(id@, DownloadInfo { retry_count: attempts, ..old(self).downloads()[id@] })
            } else {
                old(self).downloads()
            },
            attempts >= old(self).config().max_retries ==> (r matches RetryDecision::GiveUp(m) && m@
                == "Download failed after "@ + decimal(attempts as nat) + " attempts: "@ + error@),
            attempts < old(self).config().max_retries ==> r == RetryDecision::RetryAfter(
                backoff_delay(old(self).config().retry_delay_seconds, attempts),
            ),
    {
        proof { use_type_invariant(&*self); }
        let mut t = KeyedList::new();
        std::mem::swap(&mut t, &mut self.downloads);
        match t.get_mut(id) {
            Some(info) => {
                info.retry_count = attempts;
            },
            None => {},
        }
        self.downloads = t;
        if attempts >= self.config.max_retries {
            let mut m = "Download failed after ".to_string();
            m.append(u32_string(attempts).as_str());
            m.append(" attempts: ");
            m.append(error);
            RetryDecision::GiveUp(m)
        } else {
            RetryDecision::RetryAfter(retry_delay(self.config.retry_delay_seconds, attempts))
        }
    }

    /// Records the progress of a running download at `now`, after a chunk was
    /// written; a cancelled or paused download stops instead.
    pub fn record_chunk_at(&mut self, id: &str, downloaded: u64, total: Option<u64>, now: u64) -> (r: Result<(), String>)
        ensures
            final(self).config() == old(self).config(),
            !old(self).downloads().contains_key(id@) ==> r is Ok && final(self).downloads() == old(self).downloads(),
            old(self).downloads().contains_key(id@) ==> ({
                let d = old(self).downloads()[id@];
                if d.status == DownloadStatus::Cancelled {
                    r matches Err(e) && e@ == "Download cancelled"@ && final(self).downloads() == old(self).downloads()
                } else if d.status == DownloadStatus::Paused {
                    r matches Err(e) && e@ == "Download paused"@ && final(self).downloads() == old(self).downloads()
                } else {
                    r is Ok && final(self).downloads() == old(self).downloads().insert(
                        id@,
                        progressed(d, downloaded, total, now),
                    )
                }
            }),
    {
        proof { use_type_invariant(&*self); }
        let mut t = KeyedList::new();
        std::mem::swap(&mut t, &mut self.downloads);
        let r = match t.get_mut(id) {
            Some(info) => {
                if info.status == DownloadStatus::Cancelled {
                    Err("Download cancelled".to_string())
                } else if info.status == DownloadStatus::Paused {
                    Err("Download paused".to_string())
                } else {
                    info.update_progress_at(downloaded, total, now);
                    Ok(())
                }
            },
            None => Ok(()),
        };
        self.downloads = t;
        r
    }

    /// Records how a download ended: completed, or failed with the error.
    pub fn finish_download(&mut self, id: &str, result: Result<(), String>)
        ensures
            final(self).config() == old(self).config(),
            final(self).downloads() == if old(self).downloads().contains_key(id@) {
                old(self).downloads().insert(
                    id@,
                    match result {
                        Ok(()) => DownloadInfo { status: DownloadStatus::Completed, ..old(self).downloads()[id@] },
                        Err(e) => DownloadInfo {
                            status: DownloadStatus::Failed,
                            error: Some(e),
                            ..old(self).downloads()[id@]
                        },
                    },
                )
            } else {
                old(self).downloads()
            },
    {
        proof { use_type_invariant(&*self); }
        let mut t = KeyedList::new();
        std::mem::swap(&mut t, &mut self.downloads);
        match t.get_mut(id) {
            Some(info) => {
                match result {
                    Ok(()) => {
                        info.status = DownloadStatus::Completed;
                    },
                    Err(e) => {
                        info.status = DownloadStatus::Failed;
                        info.error = Some(e);
                    },
                }
            },
            None => {},
        }
        self.downloads = t;
    }

    /// Pauses an active download
    pub fn pause_download(&mut self, id: &str) -> (r: Result<(), String>)
        ensures
            final(self).config() == old(self).config(),
            r is Ok <==> old(self).downloads().contains_key(id@) && old(self).downloads()[id@].status
                == DownloadStatus::InProgress,
            r matches Err(e) ==> final(self).downloads() == old(self).downloads() && e@ == if old(
                self,
            ).downloads().contains_key(id@) {
                download_message(id@, "' is not in progress"@)
            } else {
                download_message(id@, "' not found"@)
            },
            r is Ok ==> final(self).downloads() == old(self).downloads().insert(
                id@,
                DownloadInfo { status: DownloadStatus::Paused, ..old(self).downloads()[id@] },
            ),
    {
        proof { use_type_invariant(&*self); }
        let mut t = KeyedList::new();
        std::mem::swap(&mut t, &mut self.downloads);
        let r = match t.get_mut(id) {
            Some(info) => {
                if info.status != DownloadStatus::InProgress {
                    Err(download_error(id, "' is not in progress"))
                } else {
                    info.status = DownloadStatus::Paused;
                    Ok(())
                }
            },
            None => Err(download_error(id, "' not found")),
        };
        self.downloads = t;
        r
    }

    /// Cancels a download (its transfer, if one runs, is to be stopped)
    pub fn cancel_download(&mut self, id: &str) -> (r: Result<(), String>)
        ensures
            final(self).config() == old(self).config(),
            r is Ok <==> old(self).downloads().contains_key(id@),
            r matches Err(e) ==> final(self).downloads() == old(self).downloads() && e@ == download_message(
                id@,
                "' not found"@,
            ),
            r is Ok ==> final(self).downloads() == old(self).downloads().insert(
                id@,
                DownloadInfo { status: DownloadStatus::Cancelled, ..old(self).downloads()[id@] },
            ),
    {
        proof { use_type_invariant(&*self); }
        let mut t = KeyedList::new();
        std::mem::swap(&mut t, &mut self.downloads);
        let r = match t.get_mut(id) {
            Some(info) => {
                info.status = DownloadStatus::Cancelled;
                Ok(())
            },
            None => Err(download_error(id, "' not found")),
        };
        self.downloads = t;
        r
    }

    /// Gets information about a download
    pub fn get_download_info(&self, id: &str) -> (r: Option<DownloadInfo>)
        ensures
            r == if self.downloads().contains_key(id@) {
                Some(self.downloads()[id@])
            } else {
                None::<DownloadInfo>
            },
    {
        proof { use_type_invariant(&*self); }
        match self.downloads.get(id) {
            Some(info) => Some(info.copy()),
            None => None,
        }
    }

    /// The downloads that a status filter keeps, in the order they were queued.
    fn select(&self, status: Option<DownloadStatus>) -> (r: Vec<DownloadInfo>)
        ensures
            r@ == match status {
                Some(s) => self.download_list().filter(has_status(s)),
                None => self.download_list(),
            },
    {
        proof { use_type_invariant(&*self); }
        let ghost list = self.download_list();
        let ghost p = match status {
            Some(s) => has_status(s),
            None => |d: DownloadInfo| true,
        };
        let n = self.downloads.len();
        let mut r: Vec<DownloadInfo> = Vec::new();
        let mut i: usize = 0;
        while i < n
            invariant
                self.downloads.wf(),
                n == self.downloads.entries().len(),
                list == self.download_list(),
                list.len() == n,
                i <= n,
                p == match status {
                    Some(s) => has_status(s),
                    None => |d: DownloadInfo| true,
                },
                r@ == list.take(i as int).filter(p),
            decreases n - i,
        {
            let d = self.downloads.value_at(i);
            assert(list[i as int] == *d);
            proof { lemma_filter_step(list, p, i as int); }
            let keep = match status {
                Some(s) => d.status == s,
                None => true,
            };
            if keep {
                r.push(d.copy());
            }
            i = i + 1;
        }
        assert(list.take(i as int) =~= list);
        proof {
            if status is None {
                assert(list.filter(p) =~= list) by {
                    crate::seqs::lemma_filter_all_or_shorter(list, p);
                }
            }
        }
        r
    }

    /// Gets information about all downloads, in the order they were queued
    pub fn get_all_downloads(&self) -> (r: Vec<DownloadInfo>)
        ensures
            r@ == self.download_list(),
    {
        self.select(None)
    }

    /// Gets active downloads, in the order they were queued
    pub fn get_active_downloads(&self) -> (r: Vec<DownloadInfo>)
        ensures
            r@ == self.download_list().filter(has_status(DownloadStatus::InProgress)),
    {
        self.select(Some(DownloadStatus::InProgress))
    }

    /// Gets queued downloads, in the order they were queued
    pub fn get_queued_downloads(&self) -> (r: Vec<DownloadInfo>)
        ensures
            r@ == self.download_list().filter(has_status(DownloadStatus::Queued)),
    {
        self.select(Some(DownloadStatus::Queued))
    }

    /// Removes a download that is not running from the list
    pub fn remove_download(&mut self, id: &str) -> (r: Result<(), String>)
        ensures
            final(self).config() == old(self).config(),
            r is Ok <==> old(self).downloads().contains_key(id@) && old(self).downloads()[id@].status
                != DownloadStatus::InProgress,
            r matches Err(e) ==> final(self).downloads() == old(self).downloads() && e@ == if old(
                self,
            ).downloads().contains_key(id@) {
                "Cannot remove active download '"@ + id@ + "'"@
            } else {
                download_message(id@, "' not found"@)
            },
            r is Ok ==> final(self).downloads() == old(self).downloads().remove(id@),
    {
        proof { use_type_invariant(&*self); }
        match self.downloads.get(id) {
            Some(info) => {
                if info.status == DownloadStatus::InProgress {
                    let mut m = "Cannot remove active download '".to_string();
                    m.append(id);
                    m.append("'");
                    return Err(m);
                }
            },
            None => {
                return Err(download_error(id, "' not found"));
            },
        }
        let mut t = KeyedList::new();
        std::mem::swap(&mut t, &mut self.downloads);
        t.remove(id);
        self.downloads = t;
        Ok(())
    }

    /// Clears all completed and failed downloads
    pub fn clear_completed(&mut self)
        ensures
            final(self).config() == old(self).config(),
            final(self).downloads() == old(self).downloads().restrict(
                old(self).downloads().dom().filter(|k: Seq<char>| not_finished()(old(self).downloads()[k])),
            ),
    {
        proof { use_type_invariant(&*self); }
        let n = self.downloads.len();
        let mut doomed: Vec<String> = Vec::new();
        let mut i: usize = 0;
        while i < n
            invariant
                self.downloads.wf(),
                n == self.downloads.entries().len(),
                i <= n,
                forall|k: Seq<char>| crate::keyed::has_string(doomed@, k) <==> exists|j: int| 0 <= j < i
                    && #[trigger] self.downloads.entries()[j].0@ == k && !not_finished()(self.downloads.entries()[j].1),
            decreases n - i,
        {
            let d = self.downloads.value_at(i);
            let ghost before = doomed@;
            if d.status == DownloadStatus::Completed || d.status == DownloadStatus::Failed {
                doomed.push(self.downloads.key_at(i).clone());
            }
            assert forall|k: Seq<char>| crate::keyed::has_string(doomed@, k) <==> exists|j: int| 0 <= j < i + 1
                && #[trigger] self.downloads.entries()[j].0@ == k && !not_finished()(self.downloads.entries()[j].1) by {
                if crate::keyed::has_string(doomed@, k) {
                    let j = choose|j: int| 0 <= j < doomed@.len() && doomed@[j]@ == k;
                    if j < before.len() {
                        assert(before[j] == doomed@[j]);
                        assert(crate::keyed::has_string(before, k));
                    }
                }
                if exists|j: int| 0 <= j < i + 1 && #[trigger] self.downloads.entries()[j].0@ == k && !not_finished()(self.downloads.entries()[j].1) {
                    let j = choose|j: int| 0 <= j < i + 1 && #[trigger] self.downloads.entries()[j].0@ == k && !not_finished()(self.downloads.entries()[j].1);
                    if j < i {
                        assert(crate::keyed::has_string(before, k));
                        let m = choose|m: int| 0 <= m < before.len() && before[m]@ == k;
                        assert(doomed@[m] == before[m]);
                    } else {
                        assert(doomed@[before.len() as int]@ == k);
                    }
                }
            }
            i = i + 1;
        }
        let ghost start = self.downloads();
        proof { crate::keyed::lemma_entries_map(self.downloads.entries()); }
        assert forall|k: Seq<char>| #[trigger] crate::keyed::has_string(doomed@, k) <==> start.contains_key(k)
            && !not_finished()(start[k]) by {
            if crate::keyed::has_string(doomed@, k) {
                let j = choose|j: int| 0 <= j < n && #[trigger] self.downloads.entries()[j].0@ == k && !not_finished()(self.downloads.entries()[j].1);
                assert(start[self.downloads.entries()[j].0@] == self.downloads.entries()[j].1);
            }
            if start.contains_key(k) && !not_finished()(start[k]) {
                let j = choose|j: int| 0 <= j < n && self.downloads.entries()[j].0@ == k;
                assert(start[self.downloads.entries()[j].0@] == self.downloads.entries()[j].1);
            }
        }
        let mut i: usize = 0;
        while i < doomed.len()
            invariant
                i <= doomed@.len(),
                self.config == old(self).config,
                forall|k: Seq<char>| #[trigger] crate::keyed::has_string(doomed@, k) <==> start.contains_key(k)
                    && !not_finished()(start[k]),
                forall|k: Seq<char>| #[trigger] self.downloads().contains_key(k) <==> start.contains_key(k)
                    && !crate::keyed::has_string(doomed@.take(i as int), k),
                forall|k: Seq<char>| #[trigger] self.downloads().contains_key(k) ==> self.downloads()[k] == start[k],
            decreases doomed.len() - i,
        {
            proof { use_type_invariant(&*self); }
            let ghost prefix = doomed@.take(i as int);
            let ghost before = self.downloads();
            let mut t = KeyedList::new();
            std::mem::swap(&mut t, &mut self.downloads);
            t.remove(doomed[i].as_str());
            self.downloads = t;
            assert(self.downloads() == before.remove(doomed@[i as int]@));
            assert forall|k: Seq<char>| crate::keyed::has_string(doomed@.take(i + 1), k) <==> crate::keyed::has_string(prefix, k)
                || k == doomed@[i as int]@ by {
                if crate::keyed::has_string(doomed@.take(i + 1), k) {
                    let j = choose|j: int| 0 <= j < i + 1 && #[trigger] doomed@.take(i + 1)[j]@ == k;
                    if j < i {
                        assert(prefix[j]@ == k);
                    }
                }
                if crate::keyed::has_string(prefix, k) {
                    let j = choose|j: int| 0 <= j < i && #[trigger] prefix[j]@ == k;
                    assert(doomed@.take(i + 1)[j]@ == k);
                }
                if k == doomed@[i as int]@ {
                    assert(doomed@.take(i + 1)[i as int]@ == k);
                }
            }
            assert forall|k: Seq<char>| #[trigger] self.downloads().contains_key(k) <==> start.contains_key(k)
                && !crate::keyed::has_string(doomed@.take(i + 1), k) by {
                assert(before.contains_key(k) <==> start.contains_key(k) && !crate::keyed::has_string(prefix, k));
            }
            assert forall|k: Seq<char>| #[trigger] self.downloads().contains_key(k) implies self.downloads()[k] == start[k] by {
                assert(before.contains_key(k));
            }
            i = i + 1;
        }
        assert(doomed@.take(i as int) =~= doomed@);
        assert(self.downloads() =~= start.restrict(start.dom().filter(|k: Seq<char>| not_finished()(start[k]))));
    }
}

/// The message "Download '{id}{rest}".
fn download_error(id: &str, rest: &str) -> (r: String)
    ensures
        r@ == download_message(id@, rest@),
{
    let mut m = "Download '".to_string();
    m.append(id);
    m.append(rest);
    m
}

impl Default for DownloadManager {
    fn default() -> (r: Self)
        ensures
            r.config() == default_download_config(),
            r.downloads() == Map::<Seq<char>, DownloadInfo>::empty(),
    {
        Self::new()
    }
}

} // verus!
