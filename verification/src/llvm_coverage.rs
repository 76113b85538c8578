//! Coverage from the reports of `llvm-cov`.
//!
//! The report of a case names the files of the harness with their segments. Each region that was
//! entered becomes one feature.

use crate::candidate::{fnv, prefix_fingerprint};
use crate::coverage::{CoverageId, CoverageSet};
use crate::coverage_guided::CoverageEvaluation;
use crate::llvm::{count_changed, counter_coverage, counter_features};
use crate::virtual_time::memory::{push_word, word_bytes};
use serde_json::{Error, Value};
use vstd::prelude::*;

verus! {

/// A value of `serde_json`: it is looked into by the functions below alone.
#[verifier::external_type_specification]
#[verifier::external_body]
pub struct ExValue(Value);

/// An error of `serde_json`: it is looked into by `describe` alone.
#[verifier::external_type_specification]
#[verifier::external_body]
pub struct ExError(Error);

/// What `serde_json::from_slice` makes of the bytes.
pub uninterp spec fn json_parsed(bytes: Seq<u8>) -> Result<Value, Error>;

/// What `Value::get` finds under a key.
pub uninterp spec fn json_member(value: Value, key: Seq<char>) -> Option<Value>;

/// What `Value::as_array` gives.
pub uninterp spec fn json_items(value: Value) -> Option<Seq<Value>>;

/// The bytes of what `Value::as_str` gives.
pub uninterp spec fn json_text(value: Value) -> Option<Seq<u8>>;

/// What `Value::as_u64` gives.
pub uninterp spec fn json_number(value: Value) -> Option<u64>;

/// What `Value::as_bool` gives.
pub uninterp spec fn json_flag(value: Value) -> Option<bool>;

/// The text of an error of `serde_json`.
pub uninterp spec fn json_error_text(error: Error) -> Seq<char>;

/// `serde_json::from_slice`: the value that the bytes write down, or why they write down none. Which
/// value that is goes by its name; it depends on the bytes alone.
#[verifier::external_body]
fn parse(bytes: &Vec<u8>) -> (parsed: Result<Value, Error>)
    ensures
        parsed == json_parsed(bytes@),
{
    serde_json::from_slice(bytes)
}

/// `Value::get` with a key: the member of an object, if the value is one and has it.
#[verifier::external_body]
fn member<'a>(value: &'a Value, key: &str) -> (found: Option<&'a Value>)
    ensures
        found == match json_member(*value, key@) {
            Some(member) => Some(&member),
            None => None,
        },
{
    value.get(key)
}

/// `Value::as_array`: the items of an array, if the value is one.
#[verifier::external_body]
fn items<'a>(value: &'a Value) -> (found: Option<&'a Vec<Value>>)
    ensures
        json_items(*value) == match found {
            Some(items) => Some(items@),
            None => None,
        },
{
    value.as_array()
}

/// `Value::as_str`: the bytes of a string, if the value is one.
#[verifier::external_body]
fn text(value: &Value) -> (found: Option<Vec<u8>>)
    ensures
        json_text(*value) == match found {
            Some(bytes) => Some(bytes@),
            None => None,
        },
{
    value.as_str().map(|text| text.as_bytes().to_vec())
}

/// `Value::as_u64`: the number, if the value is a whole number of 64 bits.
#[verifier::external_body]
fn number(value: &Value) -> (found: Option<u64>)
    ensures
        found == json_number(*value),
{
    value.as_u64()
}

/// `Value::as_bool`: the truth value, if the value is one.
#[verifier::external_body]
fn flag(value: &Value) -> (found: Option<bool>)
    ensures
        found == json_flag(*value),
{
    value.as_bool()
}

/// The text of a `serde_json::Error`.
#[verifier::external_body]
fn describe(error: &Error) -> (text: String)
    ensures
        text@ == json_error_text(*error),
{
    format!("{error}")
}

/// A segment of a file in a report.
#[derive(Debug, Clone, Copy, PartialEq, Eq, Structural)]
pub struct Segment {
    pub line: u64,
    pub column: u64,
    pub count: u64,
    pub has_count: bool,
    pub is_region_entry: bool,
}

impl Segment {
    /// The segment enters a region, and the region was run.
    pub open spec fn is_covered(self) -> bool {
        self.count > 0 && self.has_count && self.is_region_entry
    }
}

/// A file in a report.
#[derive(Debug, PartialEq, Eq)]
pub struct ReportFile {
    pub filename: Vec<u8>,
    pub segments: Vec<Segment>,
}

/// A file in a report, by contents.
#[verifier::ext_equal]
pub struct FileModel {
    pub filename: Seq<u8>,
    pub segments: Seq<Segment>,
}

impl View for ReportFile {
    type V = FileModel;

    open spec fn view(&self) -> FileModel {
        FileModel { filename: self.filename@, segments: self.segments@ }
    }
}

/// The contents of the files.
pub open spec fn file_models(files: Seq<ReportFile>) -> Seq<FileModel> {
    files.map_values(|file: ReportFile| file@)
}

/// The feature of a region: a hash of the file, the line and the column where it starts.
pub open spec fn region(filename: Seq<u8>, line: u64, column: u64) -> CoverageId {
    CoverageId(fnv(filename + word_bytes(line) + word_bytes(column)))
}

/// The regions of a file that were run.
pub open spec fn covered_segments(filename: Seq<u8>, segments: Seq<Segment>) -> Set<CoverageId>
    decreases segments.len(),
{
    if segments.len() == 0 {
        Set::empty()
    } else {
        let rest = covered_segments(filename, segments.drop_last());
        let segment = segments.last();
        if segment.is_covered() {
            rest.insert(region(filename, segment.line, segment.column))
        } else {
            rest
        }
    }
}

/// The regions of the files that were run.
pub open spec fn covered_files(files: Seq<FileModel>) -> Set<CoverageId>
    decreases files.len(),
{
    if files.len() == 0 {
        Set::empty()
    } else {
        covered_files(files.drop_last()).union(
            covered_segments(files.last().filename, files.last().segments),
        )
    }
}

/// A feature is covered if and only if a segment of a file enters its region and was run.
pub proof fn covered_regions_were_run(files: Seq<FileModel>, id: CoverageId)
    ensures
        covered_files(files).contains(id) <==> exists|f: int, s: int|
            0 <= f < files.len() && 0 <= s < files[f].segments.len() && (
            #[trigger] files[f].segments[s]).is_covered() && id == region(
                files[f].filename,
                files[f].segments[s].line,
                files[f].segments[s].column,
            ),
    decreases files.len(),
{
    if files.len() > 0 {
        let fewer = files.drop_last();
        let last = files.last();
        covered_regions_were_run(fewer, id);
        lemma_covered_segments(last.filename, last.segments, id);
        if covered_files(fewer).contains(id) {
            let (f, s) = choose|f: int, s: int|
                0 <= f < fewer.len() && 0 <= s < fewer[f].segments.len() && (
                #[trigger] fewer[f].segments[s]).is_covered() && id == region(
                    fewer[f].filename,
                    fewer[f].segments[s].line,
                    fewer[f].segments[s].column,
                );
            assert(files[f].segments[s].is_covered());
        }
        if covered_segments(last.filename, last.segments).contains(id) {
            let s = choose|s: int|
                0 <= s < last.segments.len() && (#[trigger] last.segments[s]).is_covered() && id
                    == region(last.filename, last.segments[s].line, last.segments[s].column);
            assert(files[files.len() - 1].segments[s].is_covered());
        }
        if exists|f: int, s: int|
            0 <= f < files.len() && 0 <= s < files[f].segments.len() && (
            #[trigger] files[f].segments[s]).is_covered() && id == region(
                files[f].filename,
                files[f].segments[s].line,
                files[f].segments[s].column,
            ) {
            let (f, s) = choose|f: int, s: int|
                0 <= f < files.len() && 0 <= s < files[f].segments.len() && (
                #[trigger] files[f].segments[s]).is_covered() && id == region(
                    files[f].filename,
                    files[f].segments[s].line,
                    files[f].segments[s].column,
                );
            if f < fewer.len() {
                assert(fewer[f].segments[s].is_covered());
            } else {
                assert(last.segments[s].is_covered());
            }
        }
    }
}

proof fn lemma_covered_segments(filename: Seq<u8>, segments: Seq<Segment>, id: CoverageId)
    ensures
        covered_segments(filename, segments).contains(id) <==> exists|s: int|
            0 <= s < segments.len() && (#[trigger] segments[s]).is_covered() && id == region(
                filename,
                segments[s].line,
                segments[s].column,
            ),
    decreases segments.len(),
{
    if segments.len() > 0 {
        let fewer = segments.drop_last();
        lemma_covered_segments(filename, fewer, id);
        if covered_segments(filename, fewer).contains(id) {
            let s = choose|s: int|
                0 <= s < fewer.len() && (#[trigger] fewer[s]).is_covered() && id == region(
                    filename,
                    fewer[s].line,
                    fewer[s].column,
                );
            assert(segments[s].is_covered());
        }
        if exists|s: int|
            0 <= s < segments.len() && (#[trigger] segments[s]).is_covered() && id == region(
                filename,
                segments[s].line,
                segments[s].column,
            ) {
            let s = choose|s: int|
                0 <= s < segments.len() && (#[trigger] segments[s]).is_covered() && id == region(
                    filename,
                    segments[s].line,
                    segments[s].column,
                );
            if s < fewer.len() {
                assert(fewer[s].is_covered());
            }
        }
        if segments.last().is_covered() {
            assert(segments[segments.len() - 1].is_covered());
        }
    }
}

/// The feature of a region.
fn region_id(filename: &Vec<u8>, line: u64, column: u64) -> (id: CoverageId)
    ensures
        id == region(filename@, line, column),
{
    let mut bytes = crate::trace::copy_bytes(filename);
    push_word(&mut bytes, line);
    push_word(&mut bytes, column);
    assert(bytes@ =~= filename@ + word_bytes(line) + word_bytes(column));
    CoverageId::new(prefix_fingerprint(&bytes).hash)
}

/// The regions of the files that were run.
pub fn coverage_from_files(files: &Vec<ReportFile>) -> (coverage: CoverageSet)
    ensures
        coverage@ == covered_files(file_models(files@)),
{
    let ghost models = file_models(files@);
    let mut coverage = CoverageSet::new();
    let mut f: usize = 0;
    assert(models.take(0) =~= Seq::<FileModel>::empty());
    while f < files.len()
        invariant
            f <= files@.len(),
            models == file_models(files@),
            coverage@ == covered_files(models.take(f as int)),
        decreases files@.len() - f,
    {
        let file = &files[f];
        let ghost before = coverage@;
        let ghost segments = file.segments@;
        let mut s: usize = 0;
        assert(segments.take(0) =~= Seq::<Segment>::empty());
        assert(before.union(Set::empty()) =~= before);
        while s < file.segments.len()
            invariant
                s <= segments.len(),
                segments == file.segments@,
                coverage@ == before.union(
                    covered_segments(file.filename@, segments.take(s as int)),
                ),
            decreases segments.len() - s,
        {
            let segment = file.segments[s];
            let ghost sofar = covered_segments(file.filename@, segments.take(s as int));
            assert(segments.take(s + 1).drop_last() =~= segments.take(s as int));
            if segment.count > 0 && segment.has_count && segment.is_region_entry {
                let id = region_id(&file.filename, segment.line, segment.column);
                coverage.insert(id);
                assert(before.union(sofar).insert(id) =~= before.union(sofar.insert(id)));
            }
            s += 1;
        }
        assert(segments.take(segments.len() as int) =~= segments);
        proof {
            let more = models.take(f + 1);
            assert(more.drop_last() =~= models.take(f as int));
            assert(more.last() == file@);
        }
        f += 1;
    }
    assert(models.take(models.len() as int) =~= models);
    coverage
}

/// The item of an array at a place.
pub open spec fn item_at(items: Seq<Value>, place: int) -> Option<Value> {
    if place < items.len() {
        Some(items[place])
    } else {
        None
    }
}

pub open spec fn number_or(value: Option<Value>, otherwise: u64) -> u64 {
    match value {
        Some(value) => match json_number(value) {
            Some(number) => number,
            None => otherwise,
        },
        None => otherwise,
    }
}

pub open spec fn flag_or(value: Option<Value>, otherwise: bool) -> bool {
    match value {
        Some(value) => match json_flag(value) {
            Some(flag) => flag,
            None => otherwise,
        },
        None => otherwise,
    }
}

/// The segment that an array stands for.
pub open spec fn segment_of(items: Seq<Value>) -> Segment {
    Segment {
        line: number_or(item_at(items, 0), 0),
        column: number_or(item_at(items, 1), 0),
        count: number_or(item_at(items, 2), 0),
        has_count: flag_or(item_at(items, 3), true),
        is_region_entry: flag_or(item_at(items, 4), true),
    }
}

/// The segments among the values: those that are arrays.
pub open spec fn segments_of(values: Seq<Value>) -> Seq<Segment>
    decreases values.len(),
{
    if values.len() == 0 {
        Seq::empty()
    } else {
        let rest = segments_of(values.drop_last());
        match json_items(values.last()) {
            Some(items) => rest.push(segment_of(items)),
            None => rest,
        }
    }
}

/// What stands for a file without a name.
pub open spec fn unknown_name() -> Seq<u8> {
    seq![60u8, 117, 110, 107, 110, 111, 119, 110, 62]
}

/// The file that a value stands for, if it has segments.
pub open spec fn file_of(value: Value) -> Option<FileModel> {
    let filename = match json_member(value, "filename"@) {
        Some(name) => match json_text(name) {
            Some(bytes) => bytes,
            None => unknown_name(),
        },
        None => unknown_name(),
    };
    match json_member(value, "segments"@) {
        Some(segments) => match json_items(segments) {
            Some(items) => Some(FileModel { filename, segments: segments_of(items) }),
            None => None,
        },
        None => None,
    }
}

/// The files among the values: those with segments.
pub open spec fn files_of(values: Seq<Value>) -> Seq<FileModel>
    decreases values.len(),
{
    if values.len() == 0 {
        Seq::empty()
    } else {
        let rest = files_of(values.drop_last());
        match file_of(values.last()) {
            Some(file) => rest.push(file),
            None => rest,
        }
    }
}

/// The files of an export.
pub open spec fn export_files(export: Value) -> Seq<FileModel> {
    match json_member(export, "files"@) {
        Some(files) => match json_items(files) {
            Some(items) => files_of(items),
            None => Seq::empty(),
        },
        None => Seq::empty(),
    }
}

/// The files of all exports.
pub open spec fn all_files(exports: Seq<Value>) -> Seq<FileModel>
    decreases exports.len(),
{
    if exports.len() == 0 {
        Seq::empty()
    } else {
        all_files(exports.drop_last()) + export_files(exports.last())
    }
}

/// The exports of a report.
pub open spec fn exports_of(report: Value) -> Option<Seq<Value>> {
    match json_member(report, "data"@) {
        Some(data) => json_items(data),
        None => None,
    }
}

fn read_number(items: &Vec<Value>, place: usize, otherwise: u64) -> (value: u64)
    ensures
        value == number_or(item_at(items@, place as int), otherwise),
{
    if place < items.len() {
        match number(&items[place]) {
            Some(value) => value,
            None => otherwise,
        }
    } else {
        otherwise
    }
}

fn read_flag(items: &Vec<Value>, place: usize, otherwise: bool) -> (value: bool)
    ensures
        value == flag_or(item_at(items@, place as int), otherwise),
{
    if place < items.len() {
        match flag(&items[place]) {
            Some(value) => value,
            None => otherwise,
        }
    } else {
        otherwise
    }
}

fn read_segments(values: &Vec<Value>) -> (segments: Vec<Segment>)
    ensures
        segments@ == segments_of(values@),
{
    let mut segments: Vec<Segment> = Vec::new();
    let mut i: usize = 0;
    assert(values@.take(0) =~= Seq::<Value>::empty());
    while i < values.len()
        invariant
            i <= values@.len(),
            segments@ == segments_of(values@.take(i as int)),
        decreases values@.len() - i,
    {
        assert(values@.take(i + 1).drop_last() =~= values@.take(i as int));
        if let Some(parts) = items(&values[i]) {
            segments.push(
                Segment {
                    line: read_number(parts, 0, 0),
                    column: read_number(parts, 1, 0),
                    count: read_number(parts, 2, 0),
                    has_count: read_flag(parts, 3, true),
                    is_region_entry: read_flag(parts, 4, true),
                },
            );
        }
        i += 1;
    }
    assert(values@.take(values@.len() as int) =~= values@);
    segments
}

fn read_name(value: &Value) -> (filename: Vec<u8>)
    ensures
        filename@ == match json_member(*value, "filename"@) {
            Some(name) => match json_text(name) {
                Some(bytes) => bytes,
                None => unknown_name(),
            },
            None => unknown_name(),
        },
{
    if let Some(name) = member(value, "filename") {
        if let Some(bytes) = text(name) {
            return bytes;
        }
    }
    let unknown: Vec<u8> = vec![60u8, 117, 110, 107, 110, 111, 119, 110, 62];
    assert(unknown@ =~= unknown_name());
    unknown
}

fn read_files(values: &Vec<Value>) -> (files: Vec<ReportFile>)
    ensures
        file_models(files@) == files_of(values@),
{
    let mut files: Vec<ReportFile> = Vec::new();
    let mut i: usize = 0;
    assert(values@.take(0) =~= Seq::<Value>::empty());
    assert(file_models(files@) =~= Seq::<FileModel>::empty());
    while i < values.len()
        invariant
            i <= values@.len(),
            file_models(files@) == files_of(values@.take(i as int)),
        decreases values@.len() - i,
    {
        assert(values@.take(i + 1).drop_last() =~= values@.take(i as int));
        if let Some(list) = member(&values[i], "segments") {
            if let Some(parts) = items(list) {
                let ghost before = file_models(files@);
                let file = ReportFile {
                    filename: read_name(&values[i]),
                    segments: read_segments(parts),
                };
                let ghost model = file@;
                files.push(file);
                assert(file_models(files@) =~= before.push(model));
            }
        }
        i += 1;
    }
    assert(values@.take(values@.len() as int) =~= values@);
    files
}

fn read_exports(exports: &Vec<Value>) -> (files: Vec<ReportFile>)
    ensures
        file_models(files@) == all_files(exports@),
{
    let mut files: Vec<ReportFile> = Vec::new();
    let mut i: usize = 0;
    assert(exports@.take(0) =~= Seq::<Value>::empty());
    assert(file_models(files@) =~= Seq::<FileModel>::empty());
    while i < exports.len()
        invariant
            i <= exports@.len(),
            file_models(files@) == all_files(exports@.take(i as int)),
        decreases exports@.len() - i,
    {
        assert(exports@.take(i + 1).drop_last() =~= exports@.take(i as int));
        let ghost before = file_models(files@);
        let ghost found = export_files(exports@[i as int]);
        assert(before + Seq::<FileModel>::empty() =~= before);
        if let Some(list) = member(&exports[i], "files") {
            if let Some(values) = items(list) {
                let mut more = read_files(values);
                assert(file_models(more@) == found);
                files.append(&mut more);
                assert(file_models(files@) =~= before + found);
            }
        }
        i += 1;
    }
    assert(exports@.take(exports@.len() as int) =~= exports@);
    files
}

/// The regions that were run, out of a report of `llvm-cov` in JSON.
pub fn coverage_from_export(bytes: &Vec<u8>) -> (coverage: Result<CoverageSet, String>)
    ensures
        match json_parsed(bytes@) {
            Err(error) => coverage is Err && coverage->Err_0@
                == "failed to parse llvm-cov export JSON: "@ + json_error_text(error),
            Ok(report) => match exports_of(report) {
                None => coverage is Err && coverage->Err_0@
                    == "llvm-cov export JSON missing data array"@,
                Some(exports) => coverage is Ok && coverage->Ok_0@ == covered_files(
                    all_files(exports),
                ),
            },
        },
{
    let report = match parse(bytes) {
        Ok(report) => report,
        Err(error) => {
            let mut message = "failed to parse llvm-cov export JSON: ".to_owned();
            message.append(describe(&error).as_str());
            return Err(message);
        },
    };
    if let Some(data) = member(&report, "data") {
        if let Some(exports) = items(data) {
            let files = read_exports(exports);
            return Ok(coverage_from_files(&files));
        }
    }
    Err("llvm-cov export JSON missing data array".to_owned())
}

/// Coverage by the counters of the process.
#[derive(Debug, Clone, Copy, PartialEq, Eq, Structural)]
pub struct LlvmCounterCoverage {
    pub counter_count: usize,
}

/// One case whose counters are read at its end.
#[derive(Debug, Clone, Copy, PartialEq, Eq, Structural)]
pub struct LlvmCounterCoverageCase {
    pub counter_count: usize,
}

impl LlvmCounterCoverage {
    /// Coverage in a process with so many counters.
    pub fn new(counter_count: usize) -> (coverage: Result<LlvmCounterCoverage, String>)
        ensures
            match coverage {
                Ok(coverage) => counter_count > 0 && coverage.counter_count == counter_count,
                Err(error) => counter_count == 0 && error@
                    == "LLVM coverage runtime reported no counters"@,
            },
    {
        if counter_count == 0 {
            return Err("LLVM coverage runtime reported no counters".to_owned());
        }
        Ok(LlvmCounterCoverage { counter_count })
    }

    /// Starts a case. The counters are to be set to zero.
    pub fn start_case(&self) -> (case: LlvmCounterCoverageCase)
        ensures
            case.counter_count == self.counter_count,
    {
        LlvmCounterCoverageCase { counter_count: self.counter_count }
    }

    /// What came of a case: its outcome, and the counters that it left.
    pub fn evaluate(&self, counters: &Vec<u64>, outcome: Result<(), String>) -> (evaluation: Result<
        CoverageEvaluation,
        String,
    >)
        ensures
            is_evaluation(self.counter_count, counters@, outcome, evaluation),
    {
        self.start_case().finish(counters, outcome)
    }
}

/// The outcome of a case and its covered counters; or an error, if there are more or fewer
/// counters than there were.
pub open spec fn is_evaluation(
    counter_count: usize,
    counters: Seq<u64>,
    outcome: Result<(), String>,
    evaluation: Result<CoverageEvaluation, String>,
) -> bool {
    match evaluation {
        Ok(evaluation) => {
            &&& counters.len() == counter_count
            &&& evaluation.outcome == outcome
            &&& evaluation.coverage@ == counter_features(counters, false)
        },
        Err(error) => counters.len() != counter_count && error@ == count_changed(
            counter_count,
            counters.len(),
        ),
    }
}

impl LlvmCounterCoverageCase {
    /// Ends the case: every counter that is not zero is covered.
    pub fn finish(self, counters: &Vec<u64>, outcome: Result<(), String>) -> (evaluation: Result<
        CoverageEvaluation,
        String,
    >)
        ensures
            is_evaluation(self.counter_count, counters@, outcome, evaluation),
    {
        match counter_coverage(counters, self.counter_count, false) {
            Ok(feedback) => Ok(CoverageEvaluation::from_outcome(outcome, feedback.features)),
            Err(error) => Err(error),
        }
    }
}

/// A segment is read by the places of its fields: line, column, count, and two flags that are set
/// unless they say otherwise; a field that is missing or of another kind counts as zero, or as set.
pub proof fn segments_are_read_by_place(items: Seq<Value>)
    ensures
        items.len() <= 3 ==> segment_of(items).has_count && segment_of(items).is_region_entry,
        items.len() <= 4 ==> segment_of(items).is_region_entry,
        items.len() <= 2 ==> !segment_of(items).is_covered(),
        items.len() >= 1 ==> segment_of(items).line == match json_number(items[0]) {
            Some(line) => line,
            None => 0,
        },
        items.len() >= 2 ==> segment_of(items).column == match json_number(items[1]) {
            Some(column) => column,
            None => 0,
        },
        items.len() >= 3 ==> segment_of(items).count == match json_number(items[2]) {
            Some(count) => count,
            None => 0,
        },
        items.len() >= 5 && json_flag(items[4]) == Some(false) ==> !segment_of(items).is_covered(),
        items.len() >= 4 && json_flag(items[3]) == Some(false) ==> !segment_of(items).is_covered(),
{
}

} // verus!
