//! Conversion settings, per-file conversion, batch planning, and statistics.

use vstd::prelude::*;
use vstd::string::StringExecFns;
use crate::error::WebPError;
use crate::utils::{
    spec_is_supported, spec_is_webp, spec_output_path, is_webp_file, is_supported_extension,
    generate_output_path,
};

verus! {

// ---------------------------------------------------------------------------
// Statistics
// ---------------------------------------------------------------------------

/// Mathematical model of a statistics aggregate, with unbounded counts and
/// totals. The byte totals are both absent until the first success is
/// recorded, then both present.
pub struct StatsModel {
    pub success_count: nat,
    pub failed_count: nat,
    pub total_time_ms: nat,
    pub total_original_size: Option<nat>,
    pub total_compressed_size: Option<nat>,
}

/// One call on the aggregate: a success with its measurements, or a failure.
pub enum StatsEvent {
    Success { time_taken_ms: u64, original_size: u64, compressed_size: u64 },
    Failure,
}

pub open spec fn opt_total(o: Option<nat>) -> nat {
    match o {
        Some(v) => v,
        None => 0,
    }
}

/// The aggregate after recording one event: a success increments the
/// success count, adds the elapsed time, and folds both byte sizes into the
/// lazily-initialized totals; a failure increments the failure count only.
pub open spec fn apply_event(m: StatsModel, e: StatsEvent) -> StatsModel {
    match e {
        StatsEvent::Success { time_taken_ms, original_size, compressed_size } => StatsModel {
            success_count: m.success_count + 1,
            failed_count: m.failed_count,
            total_time_ms: (m.total_time_ms + time_taken_ms) as nat,
            total_original_size: Some((opt_total(m.total_original_size) + original_size) as nat),
            total_compressed_size: Some(
                (opt_total(m.total_compressed_size) + compressed_size) as nat,
            ),
        },
        StatsEvent::Failure => StatsModel {
            success_count: m.success_count,
            failed_count: m.failed_count + 1,
            total_time_ms: m.total_time_ms,
            total_original_size: m.total_original_size,
            total_compressed_size: m.total_compressed_size,
        },
    }
}

/// The aggregate after recording a whole sequence of events, first to last.
pub open spec fn fold_events(m: StatsModel, s: Seq<StatsEvent>) -> StatsModel
    decreases s.len(),
{
    if s.len() == 0 {
        m
    } else {
        fold_events(apply_event(m, s[0]), s.drop_first())
    }
}

/// The empty aggregate.
pub open spec fn empty_stats() -> StatsModel {
    StatsModel {
        success_count: 0,
        failed_count: 0,
        total_time_ms: 0,
        total_original_size: None,
        total_compressed_size: None,
    }
}

/// Statistics for conversion operations. Times are wall-clock milliseconds.
pub struct ConversionStats {
    pub success_count: usize,
    pub failed_count: usize,
    pub total_time_ms: u64,
    pub total_original_size: Option<u64>,
    pub total_compressed_size: Option<u64>,
}

impl View for ConversionStats {
    type V = StatsModel;

    open spec fn view(&self) -> StatsModel {
        StatsModel {
            success_count: self.success_count as nat,
            failed_count: self.failed_count as nat,
            total_time_ms: self.total_time_ms as nat,
            total_original_size: match self.total_original_size {
                Some(v) => Some(v as nat),
                None => None,
            },
            total_compressed_size: match self.total_compressed_size {
                Some(v) => Some(v as nat),
                None => None,
            },
        }
    }
}

impl ConversionStats {
    pub fn new() -> (s: Self)
        ensures
            s@ == empty_stats(),
    {
        ConversionStats {
            success_count: 0,
            failed_count: 0,
            total_time_ms: 0,
            total_original_size: None,
            total_compressed_size: None,
        }
    }

    /// Record one successful conversion.
    pub fn add_success(&mut self, time_taken_ms: u64, original_size: u64, compressed_size: u64)
        requires
            old(self).success_count < usize::MAX,
            old(self).total_time_ms + time_taken_ms <= u64::MAX,
            opt_total(old(self)@.total_original_size) + original_size <= u64::MAX,
            opt_total(old(self)@.total_compressed_size) + compressed_size <= u64::MAX,
        ensures
            final(self)@ == apply_event(
                old(self)@,
                StatsEvent::Success { time_taken_ms, original_size, compressed_size },
            ),
    {
        self.success_count = self.success_count + 1;
        self.total_time_ms = self.total_time_ms + time_taken_ms;
        self.total_original_size = Some(
            match self.total_original_size {
                Some(v) => v,
                None => 0,
            } + original_size,
        );
        self.total_compressed_size = Some(
            match self.total_compressed_size {
                Some(v) => v,
                None => 0,
            } + compressed_size,
        );
    }

    /// Record one failed conversion.
    pub fn add_failure(&mut self)
        requires
            old(self).failed_count < usize::MAX,
        ensures
            final(self)@ == apply_event(old(self)@, StatsEvent::Failure),
    {
        self.failed_count = self.failed_count + 1;
    }
}

// ---------------------------------------------------------------------------
// Order independence of accumulation
// ---------------------------------------------------------------------------

/// Two events can be recorded in either order.
pub proof fn lemma_apply_event_commutes(m: StatsModel, a: StatsEvent, b: StatsEvent)
    ensures
        apply_event(apply_event(m, a), b) == apply_event(apply_event(m, b), a),
{
}

proof fn lemma_fold_pull_out(m: StatsModel, s: Seq<StatsEvent>, i: int)
    requires
        0 <= i < s.len(),
    ensures
        fold_events(m, s) == fold_events(apply_event(m, s[i]), s.remove(i)),
    decreases i,
{
    if i == 0 {
        assert(s.remove(0) =~= s.drop_first());
    } else {
        lemma_fold_pull_out(apply_event(m, s[0]), s.drop_first(), i - 1);
        lemma_apply_event_commutes(m, s[0], s[i]);
        assert(s.drop_first()[i - 1] == s[i]);
        assert(s.drop_first().remove(i - 1) =~= s.remove(i).drop_first());
        assert(s.remove(i)[0] == s[0]);
    }
}

/// Accumulation is order-independent: recording the same multiset of
/// success/failure events, in any interleaving, yields the same final
/// aggregate.
pub proof fn lemma_stats_fold_permutation(
    m: StatsModel,
    s1: Seq<StatsEvent>,
    s2: Seq<StatsEvent>,
)
    requires
        s1.to_multiset() == s2.to_multiset(),
    ensures
        fold_events(m, s1) == fold_events(m, s2),
    decreases s1.len(),
{
    broadcast use vstd::seq_lib::group_to_multiset_ensures;

    if s1.len() == 0 {
        assert(s2.to_multiset().len() == 0);
    } else {
        let a = s1[0];
        assert(s1.contains(a));
        assert(s2.to_multiset().count(a) > 0);
        assert(s2.contains(a));
        let i = choose|j: int| 0 <= j < s2.len() && s2[j] == a;
        lemma_fold_pull_out(m, s2, i);
        assert(s1.remove(0).to_multiset() =~= s1.to_multiset().remove(a));
        assert(s1.remove(0) =~= s1.drop_first());
        assert(s2.remove(i).to_multiset() =~= s2.to_multiset().remove(a));
        lemma_stats_fold_permutation(apply_event(m, a), s1.drop_first(), s2.remove(i));
    }
}

/// The byte totals travel together: both absent until the first success is
/// recorded, then both present.
pub open spec fn totals_wf(m: StatsModel) -> bool {
    &&& (m.total_original_size is Some <==> m.total_compressed_size is Some)
    &&& (m.total_original_size is Some <==> m.success_count > 0)
}

/// Recording an event preserves the pairing of the byte totals.
pub proof fn lemma_apply_event_totals_wf(m: StatsModel, e: StatsEvent)
    requires
        totals_wf(m),
    ensures
        totals_wf(apply_event(m, e)),
{
}

/// A whole run from a well-paired aggregate (the empty one, in particular)
/// keeps the byte totals paired.
pub proof fn lemma_fold_totals_wf(m: StatsModel, s: Seq<StatsEvent>)
    requires
        totals_wf(m),
    ensures
        totals_wf(fold_events(m, s)),
    decreases s.len(),
{
    if s.len() > 0 {
        lemma_apply_event_totals_wf(m, s[0]);
        lemma_fold_totals_wf(apply_event(m, s[0]), s.drop_first());
    }
}

/// Every event recorded lands in exactly one of the two counters: after a
/// run, successes plus failures equal the number of events processed.
pub proof fn lemma_fold_counts(m: StatsModel, s: Seq<StatsEvent>)
    ensures
        fold_events(m, s).success_count + fold_events(m, s).failed_count == m.success_count
            + m.failed_count + s.len(),
    decreases s.len(),
{
    if s.len() > 0 {
        lemma_fold_counts(apply_event(m, s[0]), s.drop_first());
    }
}

// ---------------------------------------------------------------------------
// Conversion settings
// ---------------------------------------------------------------------------

/// Settings for one conversion run: quality (1-100), whether to encode
/// losslessly, and the encoder effort/quality tradeoff method (0-6). The
/// simple encoder entry point takes only a quality, so `method` is
/// recorded configuration that the encode call does not consult.
pub struct WebPConverter {
    pub quality: u8,
    pub lossless: bool,
    pub method: u8,
}

impl WebPConverter {
    /// Create a new WebP converter with specified settings.
    pub fn new(quality: u8, lossless: bool, method: u8) -> (c: Self)
        ensures
            c.quality == quality,
            c.lossless == lossless,
            c.method == method,
    {
        Self { quality, lossless, method }
    }

    /// The quality handed to the encoder: lossless conversion forces the
    /// maximum regardless of the requested value.
    pub fn effective_quality(&self) -> (q: u8)
        ensures
            q == if self.lossless { 100u8 } else { self.quality },
    {
        if self.lossless {
            100
        } else {
            self.quality
        }
    }

    /// Decode and normalize one in-memory image into the 3-channel pixel
    /// buffer the encoder takes: exactly the buffers `spec_decodes` admits
    /// come back `Ok`, as the named normalized pixels and dimensions;
    /// anything else is rejected as an invalid image, carrying the input
    /// path.
    pub fn prepare_image(&self, input_path: &str, data: &[u8]) -> (r: Result<
        RgbImageData,
        WebPError,
    >)
        ensures
            r is Ok <==> spec_decodes(data@),
            r matches Ok(img) ==> img.pixels@ == decoded_rgb(data@) && img.width == decoded_width(
                data@,
            ) && img.height == decoded_height(data@) && img.wf(),
            r matches Err(e) ==> (e matches WebPError::InvalidImage(p) && p@ == input_path@),
    {
        match decode_to_rgb(data) {
            Some((pixels, width, height)) => Ok(RgbImageData { pixels, width, height }),
            None => Err(WebPError::InvalidImage(String::from_str(input_path))),
        }
    }
}

// ---------------------------------------------------------------------------
// Decoding, behind the external image library
// ---------------------------------------------------------------------------

/// Whether a byte buffer decodes as a supported image.
pub uninterp spec fn spec_decodes(data: Seq<u8>) -> bool;

/// The pixels a decodable buffer normalizes to: 8-bit RGB, three samples
/// per pixel, row-major.
pub uninterp spec fn decoded_rgb(data: Seq<u8>) -> Seq<u8>;

/// The width of the image a decodable buffer holds.
pub uninterp spec fn decoded_width(data: Seq<u8>) -> u32;

/// The height of the image a decodable buffer holds.
pub uninterp spec fn decoded_height(data: Seq<u8>) -> u32;

/// Relies on `image::load_from_memory` and `image::DynamicImage::to_rgb8`:
/// the format is guessed from the bytes alone and decode failures come
/// back as `Err` values, so which buffers decode, and the normalized
/// pixels and dimensions they give, are functions of the bytes — named
/// above. The guess also consults a process-global format-hook registry;
/// it starts empty and nothing in this program registers a hook, so the
/// bytes-only reading holds here. The decode path allocates the pixel
/// container at exactly the image size, and the normalization constructs
/// its buffers the same way, so the container holds exactly
/// `3 * width * height` samples.
#[verifier::external_body]
fn decode_to_rgb(data: &[u8]) -> (r: Option<(Vec<u8>, u32, u32)>)
    ensures
        r is Some <==> spec_decodes(data@),
        r matches Some(t) ==> t.0@ == decoded_rgb(data@) && t.1 == decoded_width(data@) && t.2
            == decoded_height(data@) && t.0@.len() == 3 * (t.1 as nat) * (t.2 as nat),
{
    match image::load_from_memory(data) {
        Ok(img) => {
            let rgb = img.to_rgb8();
            let (width, height) = rgb.dimensions();
            Some((rgb.into_raw(), width, height))
        },
        Err(_) => None,
    }
}

/// A decoded image normalized to the fixed 3-channel color model: `pixels`
/// holds `width * height` RGB triples in row-major order.
pub struct RgbImageData {
    pub pixels: Vec<u8>,
    pub width: u32,
    pub height: u32,
}

impl RgbImageData {
    pub open spec fn wf(&self) -> bool {
        self.pixels@.len() == 3 * (self.width as nat) * (self.height as nat)
    }
}

/// Check if the bytes decode as a valid image.
pub fn is_valid_image(data: &[u8]) -> (r: bool)
    ensures
        r == spec_decodes(data@),
{
    decode_to_rgb(data).is_some()
}

/// An encoder that reports success but hands back no bytes is treated as
/// failed: zero-byte output is an `EncodingError`, anything else passes.
pub fn check_encoded_output(data: &Vec<u8>) -> (r: Result<(), WebPError>)
    ensures
        r is Ok <==> data@.len() > 0,
        r matches Err(e) ==> e matches WebPError::EncodingError(m) && m@
            == "Failed to encode WebP - empty result"@,
{
    if data.len() > 0 {
        Ok(())
    } else {
        let mut m = String::new();
        m.append("Failed to encode WebP - empty result");
        Err(WebPError::EncodingError(m))
    }
}

// ---------------------------------------------------------------------------
// Input classification
// ---------------------------------------------------------------------------

/// How an input path is processed.
pub enum InputKind {
    /// A single file: converted directly.
    File,
    /// A directory: candidates are discovered and batch-converted.
    Directory,
}

/// Route an input path from what the filesystem reports of it: a missing
/// path is `InputNotFound`, a regular file goes to file-mode, a directory
/// to directory-mode, and anything else (a special device, say) is
/// `InvalidInputType`.
pub fn classify_input(path: &str, exists: bool, is_file: bool, is_dir: bool) -> (r: Result<
    InputKind,
    WebPError,
>)
    ensures
        !exists ==> (r matches Err(e) && e matches WebPError::InputNotFound(p) && p@ == path@),
        exists && is_file ==> (r matches Ok(k) && k is File),
        exists && !is_file && is_dir ==> (r matches Ok(k) && k is Directory),
        exists && !is_file && !is_dir ==> (r matches Err(e) && e matches
            WebPError::InvalidInputType(p) && p@ == path@),
{
    if !exists {
        Err(WebPError::InputNotFound(String::from_str(path)))
    } else if is_file {
        Ok(InputKind::File)
    } else if is_dir {
        Ok(InputKind::Directory)
    } else {
        Err(WebPError::InvalidInputType(String::from_str(path)))
    }
}

// ---------------------------------------------------------------------------
// Batch planning
// ---------------------------------------------------------------------------

/// What the batch orchestrator does with one candidate.
pub enum BatchAction {
    /// The candidate is already WebP: report it as skipped, not failed.
    Skip { input: String },
    /// Convert `input`, writing the result to `output`.
    Convert { input: String, output: String },
}

/// The action planned for a candidate: a `.webp` candidate is skipped,
/// anything else is converted to the path with its extension replaced by
/// `.webp`.
pub open spec fn action_matches(a: BatchAction, f: Seq<char>) -> bool {
    if spec_is_webp(f) {
        a matches BatchAction::Skip { input } && input@ == f
    } else {
        a matches BatchAction::Convert { input, output } && input@ == f && output@
            == spec_output_path(f)
    }
}

/// The sublist of directory entries that are convertible candidates, in
/// order: exactly those with a supported image extension.
pub open spec fn spec_supported_of(files: Seq<Seq<char>>) -> Seq<Seq<char>>
    decreases files.len(),
{
    if files.len() == 0 {
        Seq::empty()
    } else {
        let rest = spec_supported_of(files.drop_last());
        if spec_is_supported(files.last()) {
            rest.push(files.last())
        } else {
            rest
        }
    }
}

/// Keep the entries with a supported image extension, in their given order.
pub fn filter_image_files(entries: &Vec<String>) -> (r: Vec<String>)
    ensures
        r@.map_values(|s: String| s@) == spec_supported_of(entries@.map_values(|s: String| s@)),
{
    let mut r: Vec<String> = Vec::new();
    let mut i: usize = 0;
    while i < entries.len()
        invariant
            i <= entries@.len(),
            r@.map_values(|s: String| s@) == spec_supported_of(
                entries@.subrange(0, i as int).map_values(|s: String| s@),
            ),
        decreases entries@.len() - i,
    {
        let ghost prefix = entries@.subrange(0, i as int).map_values(|s: String| s@);
        let ghost prefix1 = entries@.subrange(0, i + 1 as int).map_values(|s: String| s@);
        proof {
            assert(prefix1.drop_last() =~= prefix);
            assert(prefix1.last() == entries@[i as int]@);
        }
        if is_supported_extension(entries[i].as_str()) {
            let e = entries[i].clone();
            r.push(e);
        }
        proof {
            assert(r@.map_values(|s: String| s@) =~= spec_supported_of(prefix1));
        }
        i = i + 1;
    }
    proof {
        assert(entries@.subrange(0, entries@.len() as int) =~= entries@);
    }
    r
}

/// The entries the batch orchestrator receives, in order: files with a
/// supported image extension, and files already in WebP form, which it
/// reports as skipped rather than dropping silently.
pub open spec fn spec_candidates_of(files: Seq<Seq<char>>) -> Seq<Seq<char>>
    decreases files.len(),
{
    if files.len() == 0 {
        Seq::empty()
    } else {
        let rest = spec_candidates_of(files.drop_last());
        if spec_is_supported(files.last()) || spec_is_webp(files.last()) {
            rest.push(files.last())
        } else {
            rest
        }
    }
}

/// Keep the entries the batch acts on — convertible candidates and
/// already-converted WebP files — in their given order.
pub fn filter_batch_candidates(entries: &Vec<String>) -> (r: Vec<String>)
    ensures
        r@.map_values(|s: String| s@) == spec_candidates_of(entries@.map_values(|s: String| s@)),
{
    let mut r: Vec<String> = Vec::new();
    let mut i: usize = 0;
    while i < entries.len()
        invariant
            i <= entries@.len(),
            r@.map_values(|s: String| s@) == spec_candidates_of(
                entries@.subrange(0, i as int).map_values(|s: String| s@),
            ),
        decreases entries@.len() - i,
    {
        let ghost prefix = entries@.subrange(0, i as int).map_values(|s: String| s@);
        let ghost prefix1 = entries@.subrange(0, i + 1 as int).map_values(|s: String| s@);
        proof {
            assert(prefix1.drop_last() =~= prefix);
            assert(prefix1.last() == entries@[i as int]@);
        }
        if is_supported_extension(entries[i].as_str()) || is_webp_file(entries[i].as_str()) {
            let e = entries[i].clone();
            r.push(e);
        }
        proof {
            assert(r@.map_values(|s: String| s@) =~= spec_candidates_of(prefix1));
        }
        i = i + 1;
    }
    proof {
        assert(entries@.subrange(0, entries@.len() as int) =~= entries@);
    }
    r
}

/// Plan a batch over the discovered candidates: with nothing eligible for
/// conversion — no candidates at all, or only files already in WebP form —
/// the batch fails with `NoImagesFound` before any conversion; otherwise
/// every candidate gets exactly one action, in discovery order, and a
/// single candidate's later failure never turns into a batch failure.
pub fn plan_batch(files: &Vec<String>) -> (r: Result<Vec<BatchAction>, WebPError>)
    ensures
        r is Err <==> (forall|i: int| 0 <= i < files@.len() ==> spec_is_webp(#[trigger] files@[i]@)),
        r matches Err(e) ==> e is NoImagesFound,
        r matches Ok(plan) ==> plan@.len() == files@.len() && forall|i: int|
            0 <= i < files@.len() ==> action_matches(#[trigger] plan@[i], files@[i]@),
{
    let mut plan: Vec<BatchAction> = Vec::new();
    let mut any_convert: bool = false;
    let mut i: usize = 0;
    while i < files.len()
        invariant
            i <= files@.len(),
            plan@.len() == i,
            forall|k: int| 0 <= k < i ==> action_matches(#[trigger] plan@[k], files@[k]@),
            any_convert <==> !(forall|k: int|
                0 <= k < i ==> spec_is_webp(#[trigger] files@[k]@)),
        decreases files@.len() - i,
    {
        let f = &files[i];
        if is_webp_file(f.as_str()) {
            plan.push(BatchAction::Skip { input: f.clone() });
        } else {
            let output = generate_output_path(f.as_str());
            plan.push(BatchAction::Convert { input: f.clone(), output });
            any_convert = true;
        }
        i = i + 1;
    }
    if !any_convert {
        return Err(WebPError::NoImagesFound);
    }
    Ok(plan)
}

} // verus!

