//! Bounded tail-keeping collection of one subprocess output stream, with the
//! decisions about its whole-stream spill file. The file itself is written by the
//! caller, which reports back what happened.

use vstd::prelude::*;
use std::path::{Path, PathBuf};
use crate::subprocess::{CollectedOutput, SubprocessOutputRead};

verus! {

#[verifier::external_type_specification]
#[verifier::external_body]
pub struct ExPath(std::path::Path);

/// What `String::from_utf8_lossy` makes of a byte sequence.
pub uninterp spec fn utf8_lossy(bytes: Seq<u8>) -> Seq<char>;

/// Decodes bytes with `String::from_utf8_lossy`, replacing invalid sequences; the
/// result is the named decoding of the bytes.
#[verifier::external_body]
fn lossy_text(bytes: &[u8]) -> (r: String)
    ensures
        r@ == utf8_lossy(bytes@),
{
    String::from_utf8_lossy(bytes).into_owned()
}

/// Copies a path with `Path::to_path_buf`; nothing is stated of the copy.
#[verifier::external_body]
fn own_path(p: &Path) -> PathBuf {
    p.to_path_buf()
}

/// What the caller must do with the spill file after a push.
#[derive(Debug, PartialEq, Eq)]
pub enum SpillStep {
    /// Nothing.
    Nothing,
    /// Create the file, write the tail held before the push and then the chunk,
    /// and report [`OutputCollector::spill_opened`] or [`OutputCollector::spill_open_failed`].
    Open,
    /// Write the chunk to the open file; report [`OutputCollector::spill_write_failed`] on failure.
    Append,
    /// The stream outgrew the spill cap: drop the file and remove it at this path.
    Discard { path: Option<String> },
}

/// The tail a window of `max` bytes keeps of `w`.
pub open spec fn keep_tail(w: Seq<u8>, max: nat) -> Seq<u8> {
    if w.len() > max {
        w.subrange(w.len() - max, w.len() as int)
    } else {
        w
    }
}

fn window(tail: &[u8], chunk: &[u8], max: usize) -> (r: Vec<u8>)
    ensures
        r@ == keep_tail(tail@ + chunk@, max as nat),
{
    let ghost w = tail@ + chunk@;
    let mut all: Vec<u8> = Vec::new();
    let mut i: usize = 0;
    while i < tail.len()
        invariant
            0 <= i <= tail.len(),
            all@ == tail@.take(i as int),
        decreases tail.len() - i,
    {
        all.push(tail[i]);
        i = i + 1;
        assert(all@ =~= tail@.take(i as int));
    }
    assert(tail@.take(tail.len() as int) =~= tail@);
    let mut j: usize = 0;
    while j < chunk.len()
        invariant
            0 <= j <= chunk.len(),
            all@ == tail@ + chunk@.take(j as int),
        decreases chunk.len() - j,
    {
        all.push(chunk[j]);
        j = j + 1;
        assert(all@ =~= tail@ + chunk@.take(j as int));
    }
    assert(chunk@.take(chunk.len() as int) =~= chunk@);
    if all.len() > max {
        let excess = all.len() - max;
        let mut kept: Vec<u8> = Vec::new();
        let mut k: usize = excess;
        while k < all.len()
            invariant
                excess <= k <= all.len(),
                all@ == w,
                kept@ == w.subrange(excess as int, k as int),
            decreases all.len() - k,
        {
            kept.push(all[k]);
            k = k + 1;
        }
        kept
    } else {
        all
    }
}

/// Bounded in-memory tail of one stream, with the state of its spill file.
pub struct OutputCollector {
    max_bytes: usize,
    spill_max_bytes: Option<usize>,
    label: String,
    spill_dir: PathBuf,
    tail: Vec<u8>,
    total: u64,
    truncated: bool,
    spill_path: Option<String>,
    spill_open: bool,
    spill_disabled: bool,
}

/// The mathematical state of a collector.
pub struct CollectorView {
    pub max_bytes: nat,
    pub spill_max_bytes: Option<usize>,
    pub tail: Seq<u8>,
    pub total: nat,
    pub truncated: bool,
    pub spill_path: Option<Seq<char>>,
    pub spill_open: bool,
    pub spill_disabled: bool,
}

/// The view of an optional string.
pub open spec fn opt_str(v: Option<String>) -> Option<Seq<char>> {
    match v {
        Some(s) => Some(s@),
        None => None,
    }
}

impl OutputCollector {
    /// The collector's state.
    pub closed spec fn view(&self) -> CollectorView {
        CollectorView {
            max_bytes: self.max_bytes as nat,
            spill_max_bytes: self.spill_max_bytes,
            tail: self.tail@,
            total: self.total as nat,
            truncated: self.truncated,
            spill_path: opt_str(self.spill_path),
            spill_open: self.spill_open,
            spill_disabled: self.spill_disabled,
        }
    }

    /// The label spill files carry.
    pub closed spec fn label_view(&self) -> Seq<char> {
        self.label@
    }

    /// The directory spill files go in.
    pub closed spec fn spill_dir_view(&self) -> PathBuf {
        self.spill_dir
    }

    /// The tail fits its window and is part of the stream.
    pub closed spec fn wf(&self) -> bool {
        self.tail@.len() <= self.max_bytes && self.tail@.len() <= self.total
    }

    /// A collector that keeps at most `max_bytes` of the stream's tail. `spill_max_bytes`
    /// `None` disables spilling; `label` and `spill_dir` name the spill file.
    pub fn new(max_bytes: usize, spill_max_bytes: Option<usize>, label: &str, spill_dir: &Path) -> (r: Self)
        ensures
            r.wf(),
            r.view().max_bytes == max_bytes,
            r.view().spill_max_bytes == spill_max_bytes,
            r.view().tail.len() == 0,
            r.view().total == 0,
            !r.view().truncated,
            r.view().spill_path is None,
            !r.view().spill_open,
            r.view().spill_disabled == (spill_max_bytes is None),
            r.label_view() == label@,
    {
        OutputCollector {
            max_bytes,
            spill_max_bytes,
            label: String::from_str(label),
            spill_dir: own_path(spill_dir),
            tail: Vec::new(),
            total: 0,
            truncated: false,
            spill_path: None,
            spill_open: false,
            spill_disabled: spill_max_bytes.is_none(),
        }
    }

    /// The label spill files carry.
    pub fn label(&self) -> (r: &String)
        ensures
            r@ == self.label_view(),
    {
        &self.label
    }

    /// The directory spill files go in.
    pub fn spill_dir(&self) -> (r: &PathBuf)
        ensures
            *r == self.spill_dir_view(),
    {
        &self.spill_dir
    }

    /// Bytes seen on the whole stream.
    pub fn total(&self) -> (r: u64)
        ensures
            r == self.view().total,
    {
        self.total
    }

    /// The tail currently held.
    pub fn tail(&self) -> (r: &[u8])
        ensures
            r@ == self.view().tail,
    {
        self.tail.as_slice()
    }

    /// Ingests one chunk. Every byte counts toward the stream total; the tail keeps the
    /// last `max_bytes` bytes and is marked truncated once bytes drop out. While
    /// spilling is enabled, a chunk that would overflow the tail, or any chunk once a
    /// file is open, goes to the spill file: the file is discarded once the total
    /// exceeds the spill cap, opened when none is open yet, else appended to.
    pub fn push(&mut self, chunk: &[u8]) -> (step: SpillStep)
        requires
            old(self).wf(),
            old(self).view().total + chunk@.len() <= u64::MAX,
        ensures
            final(self).wf(),
            final(self).label_view() == old(self).label_view(),
            final(self).spill_dir_view() == old(self).spill_dir_view(),
            final(self).view().total == old(self).view().total + chunk@.len(),
            final(self).view().tail == keep_tail(old(self).view().tail + chunk@, old(self).view().max_bytes),
            final(self).view().truncated == (old(self).view().truncated
                || old(self).view().tail.len() + chunk@.len() > old(self).view().max_bytes),
            final(self).view().max_bytes == old(self).view().max_bytes,
            final(self).view().spill_max_bytes == old(self).view().spill_max_bytes,
            ({
                let o = old(self).view();
                let f = final(self).view();
                let wants = !o.spill_disabled && (o.tail.len() + chunk@.len() > o.max_bytes || o.spill_open);
                let over = o.spill_max_bytes matches Some(m) && f.total > m;
                if !wants {
                    &&& step == SpillStep::Nothing
                    &&& f.spill_path == o.spill_path && f.spill_open == o.spill_open && f.spill_disabled == o.spill_disabled
                } else if over {
                    &&& step matches SpillStep::Discard { path } && opt_str(path) == o.spill_path
                    &&& f.spill_disabled && !f.spill_open && f.spill_path is None
                } else if !o.spill_open {
                    &&& step == SpillStep::Open
                    &&& f.spill_path == o.spill_path && f.spill_open == o.spill_open && f.spill_disabled == o.spill_disabled
                } else {
                    &&& step == SpillStep::Append
                    &&& f.spill_path == o.spill_path && f.spill_open == o.spill_open && f.spill_disabled == o.spill_disabled
                }
            }),
    {
        self.total = self.total + chunk.len() as u64;
        let overflows = self.tail.len() as u128 + chunk.len() as u128 > self.max_bytes as u128;
        let mut step = SpillStep::Nothing;
        if !self.spill_disabled && (overflows || self.spill_open) {
            let over = match self.spill_max_bytes {
                Some(m) => self.total > m as u64,
                None => false,
            };
            if over {
                let path = self.spill_path.take();
                self.spill_disabled = true;
                self.spill_open = false;
                step = SpillStep::Discard { path };
            } else if !self.spill_open {
                step = SpillStep::Open;
            } else {
                step = SpillStep::Append;
            }
        }
        let overflow = self.tail.len() as u128 + chunk.len() as u128 > self.max_bytes as u128;
        self.tail = window(self.tail.as_slice(), chunk, self.max_bytes);
        if overflow {
            self.truncated = true;
        }
        step
    }

    /// The caller created the spill file at `path` and wrote the tail and chunk to it.
    pub fn spill_opened(&mut self, path: String)
        ensures
            final(self).view() == (CollectorView { spill_open: true, spill_path: Some(path@), ..old(self).view() }),
            final(self).wf() == old(self).wf(),
            final(self).label_view() == old(self).label_view(),
            final(self).spill_dir_view() == old(self).spill_dir_view(),
    {
        self.spill_open = true;
        self.spill_path = Some(path);
    }

    /// The spill file could not be created or filled: spilling stops.
    pub fn spill_open_failed(&mut self)
        ensures
            final(self).view() == (CollectorView { spill_disabled: true, ..old(self).view() }),
            final(self).wf() == old(self).wf(),
            final(self).label_view() == old(self).label_view(),
            final(self).spill_dir_view() == old(self).spill_dir_view(),
    {
        self.spill_disabled = true;
    }

    /// A write to the open spill file failed: the file is dropped and spilling stops.
    /// Gives the path the caller removes.
    pub fn spill_write_failed(&mut self) -> (path: Option<String>)
        ensures
            opt_str(path) == old(self).view().spill_path,
            final(self).view() == (CollectorView {
                spill_disabled: true,
                spill_open: false,
                spill_path: None,
                ..old(self).view()
            }),
            final(self).wf() == old(self).wf(),
            final(self).label_view() == old(self).label_view(),
            final(self).spill_dir_view() == old(self).spill_dir_view(),
    {
        self.spill_disabled = true;
        self.spill_open = false;
        self.spill_path.take()
    }

    /// Whether a spill file is open, for the caller to close.
    pub fn spill_is_open(&self) -> (r: bool)
        ensures
            r == self.view().spill_open,
    {
        self.spill_open
    }

    /// The caller closed the spill file; a failed flush stops advertising its path,
    /// as the file may miss its tail. Idempotent.
    pub fn seal(&mut self, flushed: bool)
        ensures
            final(self).view() == (CollectorView {
                spill_open: false,
                spill_path: if old(self).view().spill_open && !flushed { None } else { old(self).view().spill_path },
                ..old(self).view()
            }),
            final(self).wf() == old(self).wf(),
            final(self).label_view() == old(self).label_view(),
            final(self).spill_dir_view() == old(self).spill_dir_view(),
    {
        if self.spill_open {
            self.spill_open = false;
            if !flushed {
                self.spill_path = None;
            }
        }
    }

    /// Reads from a whole-stream byte offset. `lossy` when the offset lies before the
    /// retained window, and then the whole tail is returned; `next_offset` is the total.
    pub fn read_from(&self, from_byte: u64) -> (r: SubprocessOutputRead)
        requires
            self.wf(),
        ensures
            ({
                let v = self.view();
                let start = v.total - v.tail.len();
                &&& r.next_offset == v.total
                &&& r.lossy == (from_byte < start)
                &&& r.lossy ==> r.text@ == utf8_lossy(v.tail)
                &&& !r.lossy ==> r.text@ == utf8_lossy(
                    if from_byte - start <= v.tail.len() { v.tail.subrange(from_byte - start, v.tail.len() as int) } else { seq![] },
                )
                &&& opt_str(r.spill_path) == v.spill_path
            }),
    {
        let window_start = self.total - self.tail.len() as u64;
        let lossy = from_byte < window_start;
        let text = if lossy {
            lossy_text(self.tail.as_slice())
        } else {
            let skip = from_byte - window_start;
            if skip <= self.tail.len() as u64 {
                let s = skip as usize;
                let mut rest: Vec<u8> = Vec::new();
                let mut j: usize = s;
                while j < self.tail.len()
                    invariant
                        s <= j <= self.tail.len(),
                        rest@ == self.tail@.subrange(s as int, j as int),
                    decreases self.tail.len() - j,
                {
                    rest.push(self.tail[j]);
                    j = j + 1;
                }
                lossy_text(rest.as_slice())
            } else {
                let empty: Vec<u8> = Vec::new();
                assert(empty@ =~= seq![]);
                lossy_text(empty.as_slice())
            }
        };
        let spill_path = match &self.spill_path {
            Some(p) => Some(p.clone()),
            None => None,
        };
        SubprocessOutputRead { text, next_offset: self.total, lossy, spill_path }
    }

    /// The retained tail, whether bytes were dropped, and the spill path when a spill
    /// file was made and remains intact. Call [`Self::seal`] first.
    pub fn finalize(&self) -> (r: CollectedOutput)
        ensures
            r.text@ == utf8_lossy(self.view().tail),
            r.truncated == self.view().truncated,
            opt_str(r.spill_path) == self.view().spill_path,
    {
        let spill_path = match &self.spill_path {
            Some(p) => Some(p.clone()),
            None => None,
        };
        CollectedOutput { text: lossy_text(self.tail.as_slice()), truncated: self.truncated, spill_path }
    }
}

} // verus!
