//! Stale-file tracking for the outbox: files the agent wrote but whose
//! trigger never appeared in its output. The filesystem watcher lives
//! outside the library and feeds events in; the tracker decides which files
//! are stale.

use vstd::prelude::*;

use crate::protocol::StaleOutboxFile;
use crate::queue::sat_sub;
use crate::text::{chars_eq, ends_with, starts_with, str_to_chars};

verus! {

/// Configuration of the outbox monitor.
#[derive(Debug, Clone)]
pub struct OutboxMonitorConfig {
    /// Agent name, for event metadata.
    pub agent_name: String,
    /// Path of the outbox directory.
    pub outbox_path: String,
    /// Seconds before a file counts as stale.
    pub stale_timeout_secs: u64,
    /// Seconds between stale checks.
    pub check_interval_secs: u64,
}

impl Default for OutboxMonitorConfig {
    /// The stock monitor configuration: agent `agent`, outbox
    /// `/tmp/relay-outbox`, one-minute staleness, ten-second checks.
    fn default() -> (r: Self)
        ensures
            r.agent_name@ == "agent"@,
            r.outbox_path@ == "/tmp/relay-outbox"@,
            r.stale_timeout_secs == 60,
            r.check_interval_secs == 10,
    {
        Self {
            agent_name: "agent".to_owned(),
            outbox_path: "/tmp/relay-outbox".to_owned(),
            stale_timeout_secs: 60,
            check_interval_secs: 10,
        }
    }
}

/// One watched outbox file.
#[derive(Debug, Clone)]
pub struct WatchedFile {
    /// File name inside the outbox.
    pub filename: String,
    /// Full path of the file.
    pub path: String,
    /// When the file was first seen, in wall-clock milliseconds.
    pub first_seen_ms: u64,
    /// Whether a stale event was already emitted for it.
    pub stale_emitted: bool,
}

/// Hidden files and editor temporaries are never watched.
pub open spec fn is_ignored_name(name: Seq<char>) -> bool {
    starts_with(name, "."@) || ends_with(name, ".tmp"@)
}

/// Whether a file name is ignored by the tracker.
pub fn ignored_filename(name: &str) -> (r: bool)
    ensures
        r == is_ignored_name(name@),
{
    let v = str_to_chars(name);
    let dot = str_to_chars(".");
    let tmp = str_to_chars(".tmp");
    let h = crate::text::matches_at(&v, &dot, 0);
    proof {
        assert(crate::text::occurs_at(name@, "."@, 0) == starts_with(name@, "."@));
    }
    h || crate::text::ends_with_chars(&v, &tmp)
}

/// Some watched entry carries this file name.
pub open spec fn watched_has(watched: Seq<WatchedFile>, name: Seq<char>) -> bool {
    exists|i: int| 0 <= i < watched.len() && #[trigger] watched[i].filename@ == name
}

/// `s` is `watched` without the entries named `name`, in order.
pub open spec fn watched_without(watched: Seq<WatchedFile>, name: Seq<char>) -> Seq<WatchedFile>
    decreases watched.len(),
{
    if watched.len() == 0 {
        watched
    } else {
        let rest = watched_without(watched.drop_last(), name);
        if watched.last().filename@ != name {
            rest.push(watched.last())
        } else {
            rest
        }
    }
}

/// Stale-file watcher state for the outbox.
pub struct OutboxMonitor {
    /// Monitor configuration.
    pub config: OutboxMonitorConfig,
    /// Watched files, in the order first seen.
    pub watched: Vec<WatchedFile>,
}

impl OutboxMonitor {
    /// A monitor watching nothing.
    pub fn new(config: OutboxMonitorConfig) -> (r: Self)
        ensures
            r.config == config,
            r.watched@.len() == 0,
    {
        Self { config, watched: Vec::new() }
    }

    /// Notes a created or modified file: starts watching it unless it is
    /// ignored or already watched.
    pub fn note_created(&mut self, filename: String, path: String, now_ms: u64)
        ensures
            final(self).config == old(self).config,
            is_ignored_name(filename@) || watched_has(old(self).watched@, filename@)
                ==> final(self).watched@ == old(self).watched@,
            !is_ignored_name(filename@) && !watched_has(old(self).watched@, filename@)
                ==> final(self).watched@ == old(self).watched@.push(
                WatchedFile { filename, path, first_seen_ms: now_ms, stale_emitted: false },
            ),
    {
        if ignored_filename(filename.as_str()) {
            return;
        }
        if self.has_watched(filename.as_str()) {
            return;
        }
        self.watched.push(
            WatchedFile { filename, path, first_seen_ms: now_ms, stale_emitted: false },
        );
    }

    /// Notes a removed file: it is no longer watched.
    pub fn note_removed(&mut self, filename: &str)
        ensures
            final(self).config == old(self).config,
            final(self).watched@ == watched_without(old(self).watched@, filename@),
    {
        self.remove_watched(filename);
    }

    /// Notes that a file's trigger was processed: it is no longer watched,
    /// so no stale event will name it.
    pub fn file_processed(&mut self, filename: &str)
        ensures
            final(self).config == old(self).config,
            final(self).watched@ == watched_without(old(self).watched@, filename@),
    {
        self.remove_watched(filename);
    }

    /// How many files are watched.
    pub fn watched_count(&self) -> (r: usize)
        ensures
            r == self.watched@.len(),
    {
        self.watched.len()
    }

    /// Whether a file name is watched.
    pub fn has_watched(&self, filename: &str) -> (r: bool)
        ensures
            r == watched_has(self.watched@, filename@),
    {
        let name_chars = str_to_chars(filename);
        let mut i: usize = 0;
        while i < self.watched.len()
            invariant
                0 <= i <= self.watched@.len(),
                name_chars@ == filename@,
                forall|j: int| 0 <= j < i ==> #[trigger] self.watched@[j].filename@ != filename@,
            decreases self.watched@.len() - i,
        {
            let entry = str_to_chars(self.watched[i].filename.as_str());
            if chars_eq(&entry, &name_chars) {
                return true;
            }
            i += 1;
        }
        false
    }

    fn remove_watched(&mut self, filename: &str)
        ensures
            final(self).config == old(self).config,
            final(self).watched@ == watched_without(old(self).watched@, filename@),
    {
        let name_chars = str_to_chars(filename);
        let ghost t0 = self.watched@;
        let mut kept: Vec<WatchedFile> = Vec::new();
        let mut i: usize = 0;
        while i < self.watched.len()
            invariant
                0 <= i <= self.watched@.len(),
                self.watched@ == t0,
                name_chars@ == filename@,
                kept@ == watched_without(t0.subrange(0, i as int), filename@),
            decreases self.watched@.len() - i,
        {
            proof {
                assert(t0.subrange(0, i + 1).drop_last() =~= t0.subrange(0, i as int));
            }
            let entry = str_to_chars(self.watched[i].filename.as_str());
            if !chars_eq(&entry, &name_chars) {
                let e = self.copy_entry(i);
                kept.push(e);
                proof {
                    assert(t0.subrange(0, i + 1).last() == t0[i as int]);
                    assert(kept@ =~= watched_without(t0.subrange(0, i + 1), filename@));
                }
            }
            i += 1;
        }
        proof {
            assert(t0.subrange(0, t0.len() as int) =~= t0);
        }
        self.watched = kept;
    }

    /// A field-for-field copy of the watched entry at `idx`.
    fn copy_entry(&self, idx: usize) -> (r: WatchedFile)
        requires
            idx < self.watched@.len(),
        ensures
            r == self.watched@[idx as int],
    {
        let e = &self.watched[idx];
        WatchedFile {
            filename: e.filename.clone(),
            path: e.path.clone(),
            first_seen_ms: e.first_seen_ms,
            stale_emitted: e.stale_emitted,
        }
    }

    /// A watched entry is stale at `now_ms`: old enough and not yet
    /// reported.
    pub open spec fn entry_stale(config: OutboxMonitorConfig, e: WatchedFile, now_ms: u64) -> bool {
        sat_sub(now_ms, e.first_seen_ms) >= config.stale_timeout_secs * 1000
            && !e.stale_emitted
    }

    /// Reports the watched files that have gone stale, marking each as
    /// reported so it is named only once; entries are kept.
    pub fn check_stale(&mut self, now_ms: u64) -> (r: Vec<StaleOutboxFile>)
        requires
            old(self).config.stale_timeout_secs <= 0xffff_ffff,
        ensures
            final(self).config == old(self).config,
            final(self).watched@.len() == old(self).watched@.len(),
            forall|i: int|
                0 <= i < old(self).watched@.len() ==> {
                    let e = old(self).watched@[i];
                    #[trigger] final(self).watched@[i] == (WatchedFile {
                        stale_emitted: e.stale_emitted || Self::entry_stale(
                            old(self).config,
                            e,
                            now_ms,
                        ),
                        ..e
                    })
                },
            stale_report_ok(old(self).config, r@, old(self).watched@, now_ms),
    {
        let ghost t0 = self.watched@;
        let ghost cfg = self.config;
        let threshold_ms = self.config.stale_timeout_secs * 1000;
        let mut out: Vec<StaleOutboxFile> = Vec::new();
        let mut updated: Vec<WatchedFile> = Vec::new();
        let mut i: usize = 0;
        while i < self.watched.len()
            invariant
                0 <= i <= self.watched@.len(),
                self.watched@ == t0,
                cfg == self.config,
                threshold_ms == cfg.stale_timeout_secs * 1000,
                cfg.stale_timeout_secs * 1000 <= u64::MAX,
                updated@.len() == i,
                forall|j: int|
                    0 <= j < i ==> #[trigger] updated@[j] == (WatchedFile {
                        stale_emitted: t0[j].stale_emitted || Self::entry_stale(cfg, t0[j], now_ms),
                        ..t0[j]
                    }),
                stale_report_ok(cfg, out@, t0.subrange(0, i as int), now_ms),
            decreases self.watched@.len() - i,
        {
            proof {
                assert(t0.subrange(0, i + 1).drop_last() =~= t0.subrange(0, i as int));
                assert(t0.subrange(0, i + 1).last() == t0[i as int]);
            }
            let age_ms = now_ms.saturating_sub(self.watched[i].first_seen_ms);
            let is_stale = age_ms >= threshold_ms && !self.watched[i].stale_emitted;
            let e = self.copy_entry(i);
            proof {
                assert(is_stale == Self::entry_stale(cfg, t0[i as int], now_ms));
            }
            if is_stale {
                let ev = StaleOutboxFile::new(
                    e.filename.clone(),
                    e.path.clone(),
                    age_ms / 1000,
                    self.config.agent_name.clone(),
                );
                out.push(ev);
            }
            updated.push(
                WatchedFile {
                    filename: e.filename,
                    path: e.path,
                    first_seen_ms: e.first_seen_ms,
                    stale_emitted: e.stale_emitted || is_stale,
                },
            );
            proof {
                let prev = stale_entries(cfg, t0.subrange(0, i as int), now_ms);
                let cur = stale_entries(cfg, t0.subrange(0, i + 1), now_ms);
                if Self::entry_stale(cfg, t0[i as int], now_ms) {
                    assert(cur =~= prev.push(t0[i as int]));
                } else {
                    assert(cur =~= prev);
                }
                assert(out@.len() == cur.len());
                assert forall|k: int| 0 <= k < out@.len() implies {
                    let e = cur[k];
                    &&& #[trigger] out@[k].event_type@ == "stale_outbox_file"@
                    &&& out@[k].file@ == e.filename@
                    &&& out@[k].path@ == e.path@
                    &&& out@[k].age_seconds == sat_sub(now_ms, e.first_seen_ms) / 1000
                    &&& out@[k].agent@ == cfg.agent_name@
                } by {
                    if k < cur.len() - 1 || !Self::entry_stale(cfg, t0[i as int], now_ms) {
                        assert(cur[k] == prev[k]);
                    } else {
                        assert(cur[k] == t0[i as int]);
                    }
                }
                assert(stale_report_ok(cfg, out@, t0.subrange(0, i + 1), now_ms));
            }
            i += 1;
        }
        proof {
            assert(t0.subrange(0, t0.len() as int) =~= t0);
            assert(stale_report_ok(cfg, out@, t0, now_ms));
        }
        self.watched = updated;
        out
    }
}

/// `out` reports exactly the stale entries of `src`, in order, with the
/// right fields.
pub open spec fn stale_report_ok(
    config: OutboxMonitorConfig,
    out: Seq<StaleOutboxFile>,
    src: Seq<WatchedFile>,
    now_ms: u64,
) -> bool {
    let stale = stale_entries(config, src, now_ms);
    &&& out.len() == stale.len()
    &&& forall|k: int|
        0 <= k < out.len() ==> {
            let e = stale[k];
            &&& #[trigger] out[k].event_type@ == "stale_outbox_file"@
            &&& out[k].file@ == e.filename@
            &&& out[k].path@ == e.path@
            &&& out[k].age_seconds == sat_sub(now_ms, e.first_seen_ms) / 1000
            &&& out[k].agent@ == config.agent_name@
        }
}

/// The entries of `s` that are stale at `now_ms`, in order.
pub open spec fn stale_entries(
    config: OutboxMonitorConfig,
    s: Seq<WatchedFile>,
    now_ms: u64,
) -> Seq<WatchedFile>
    decreases s.len(),
{
    if s.len() == 0 {
        s
    } else {
        let rest = stale_entries(config, s.drop_last(), now_ms);
        if OutboxMonitor::entry_stale(config, s.last(), now_ms) {
            rest.push(s.last())
        } else {
            rest
        }
    }
}

/// Builds an outbox monitor for the given path and staleness timeout.
pub fn create_outbox_monitor(agent_name: String, outbox_path: String, stale_timeout_secs: u64) -> (r:
    OutboxMonitor)
    ensures
        r.config.agent_name == agent_name,
        r.config.outbox_path == outbox_path,
        r.config.stale_timeout_secs == stale_timeout_secs,
        r.config.check_interval_secs == 10,
        r.watched@.len() == 0,
{
    OutboxMonitor::new(
        OutboxMonitorConfig {
            agent_name,
            outbox_path,
            stale_timeout_secs,
            check_interval_secs: 10,
        },
    )
}

} // verus!
