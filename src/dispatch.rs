//! The batch of jobs: one per (audio file, backend) pair, each with an
//! output name built from the file's stem, a timestamp taken once per file,
//! and the backend's tag; and what a batch has written once its jobs ran.

use vstd::prelude::*;
use crate::paths::{extension, file_stem, path_extension, path_stem};
use crate::text::{char_vec, push_all, same_chars, string_of};

verus! {

/// The calling convention of a backend.
#[derive(Clone, Copy, Debug, PartialEq, Eq, Structural)]
pub enum Backend {
    /// A host-language processing function, run by the runtime binary.
    Host,
    /// A C-ABI processing function, called in-process.
    Native,
}

/// The backend for a program's tag (its extension): `rs` or `cpp`.
pub fn backend_for_tag(tag: &str) -> (r: Option<Backend>)
    ensures
        r == (if tag@ == "rs"@ {
            Some(Backend::Host)
        } else if tag@ == "cpp"@ {
            Some(Backend::Native)
        } else {
            None
        }),
{
    let t = char_vec(tag);
    if same_chars(&t, &char_vec("rs")) {
        Some(Backend::Host)
    } else if same_chars(&t, &char_vec("cpp")) {
        Some(Backend::Native)
    } else {
        None
    }
}

pub open spec fn is_digit(c: char) -> bool {
    '0' <= c && c <= '9'
}

/// The shape of a `%Y_%m_%d_%H_%M` timestamp: a year of at least four
/// digits (with a sign outside 0..=9999), then month, day, hour and minute
/// as two digits each, separated by underscores.
pub open spec fn is_stamp(s: Seq<char>) -> bool {
    let n = s.len() as int;
    &&& n >= 16
    &&& forall|i: int| 0 <= i < n ==> is_digit(#[trigger] s[i]) || s[i] == '_' || s[i] == '+' || s[i] == '-'
    &&& s[n - 3] == '_' && s[n - 6] == '_' && s[n - 9] == '_' && s[n - 12] == '_'
    &&& forall|i: int| n - 12 < i < n && i != n - 9 && i != n - 6 && i != n - 3 ==> is_digit(#[trigger] s[i])
}

/// Relies on `chrono::Local::now` and `DelayedFormat`'s `Display` for the
/// pattern `%Y_%m_%d_%H_%M`: the local time now, in that shape (chrono
/// writes the year with `write_year`, the other fields with `write_two`,
/// zero-padded).
#[verifier::external_body]
fn local_stamp() -> (r: String)
    ensures
        is_stamp(r@),
{
    chrono::Local::now().format("%Y_%m_%d_%H_%M").to_string()
}

/// A path's stem, or empty text when it has none.
pub open spec fn stem_or_empty(p: Seq<char>) -> Seq<char> {
    match path_stem(p) {
        Some(s) => s,
        None => seq![],
    }
}

/// A path's extension, or empty text when it has none.
pub open spec fn tag_or_empty(p: Seq<char>) -> Seq<char> {
    match path_extension(p) {
        Some(e) => e,
        None => seq![],
    }
}

/// `{folder}/{stem}_processed_{stamp}_{tag}.wav`.
pub open spec fn output_name(
    folder: Seq<char>,
    stem: Seq<char>,
    stamp: Seq<char>,
    tag: Seq<char>,
) -> Seq<char> {
    folder + "/"@ + stem + "_processed_"@ + stamp + "_"@ + tag + ".wav"@
}

/// The path of the output written for an input with stem `stem`, taken at
/// `stamp`, processed by the backend tagged `tag`, in folder `folder`.
pub fn output_file_name(folder: &str, stem: &str, stamp: &str, tag: &str) -> (r: String)
    ensures
        r@ == output_name(folder@, stem@, stamp@, tag@),
{
    let mut out = char_vec(folder);
    push_all(&mut out, &char_vec("/"));
    push_all(&mut out, &char_vec(stem));
    push_all(&mut out, &char_vec("_processed_"));
    push_all(&mut out, &char_vec(stamp));
    push_all(&mut out, &char_vec("_"));
    push_all(&mut out, &char_vec(tag));
    push_all(&mut out, &char_vec(".wav"));
    string_of(out.as_slice())
}

/// One job: an audio file processed by one backend program.
pub struct ProcessingJob {
    /// Path of the input audio file.
    pub input: String,
    /// Path of the backend program.
    pub program: String,
    /// The program's tag (its extension), which selects the backend.
    pub tag: String,
    /// Path of the output file.
    pub output: String,
}

/// Job `job` processes `file` with `program`, named with `stamp` in
/// `folder`.
pub open spec fn is_job(
    job: ProcessingJob,
    folder: Seq<char>,
    file: Seq<char>,
    program: Seq<char>,
    stamp: Seq<char>,
) -> bool {
    &&& job.input@ == file
    &&& job.program@ == program
    &&& job.tag@ == tag_or_empty(program)
    &&& job.output@ == output_name(folder, stem_or_empty(file), stamp, tag_or_empty(program))
}

/// `jobs` holds one row per file and, in each row, one job per program,
/// with the file's own stamp.
pub open spec fn is_plan(
    jobs: Seq<Vec<ProcessingJob>>,
    folder: Seq<char>,
    files: Seq<String>,
    programs: Seq<String>,
    stamps: Seq<String>,
) -> bool {
    &&& jobs.len() == files.len()
    &&& forall|i: int|
        0 <= i < jobs.len() ==> #[trigger] jobs[i]@.len() == programs.len() && forall|j: int|
            0 <= j < programs.len() ==> is_job(
                #[trigger] jobs[i]@[j],
                folder,
                files[i]@,
                programs[j]@,
                stamps[i]@,
            )
}

fn text_or_empty(o: Option<String>) -> (r: String)
    ensures
        r@ == (match o {
            Some(s) => s@,
            None => Seq::<char>::empty(),
        }),
{
    match o {
        Some(s) => s,
        None => String::new(),
    }
}

/// The jobs of a batch: for each audio file (row) and each program
/// (column), the job that processes the file with the program; every job
/// of a file uses that file's stamp `stamps[i]`.
pub fn plan_jobs(
    folder: &str,
    audio_files: &Vec<String>,
    program_paths: &Vec<String>,
    stamps: &Vec<String>,
) -> (r: Vec<Vec<ProcessingJob>>)
    requires
        stamps@.len() == audio_files@.len(),
    ensures
        is_plan(r@, folder@, audio_files@, program_paths@, stamps@),
{
    let mut r: Vec<Vec<ProcessingJob>> = Vec::new();
    let mut i: usize = 0;
    while i < audio_files.len()
        invariant
            stamps@.len() == audio_files@.len(),
            i <= audio_files@.len(),
            r@.len() == i,
            forall|a: int|
                0 <= a < i ==> #[trigger] r@[a]@.len() == program_paths@.len() && forall|j: int|
                    0 <= j < program_paths@.len() ==> is_job(
                        #[trigger] r@[a]@[j],
                        folder@,
                        audio_files@[a]@,
                        program_paths@[j]@,
                        stamps@[a]@,
                    ),
        decreases audio_files@.len() - i,
    {
        let stem = text_or_empty(file_stem(audio_files[i].as_str()));
        let mut row: Vec<ProcessingJob> = Vec::new();
        let mut j: usize = 0;
        while j < program_paths.len()
            invariant
                stamps@.len() == audio_files@.len(),
                i < audio_files@.len(),
                stem@ == stem_or_empty(audio_files@[i as int]@),
                j <= program_paths@.len(),
                row@.len() == j,
                forall|b: int|
                    0 <= b < j ==> is_job(
                        #[trigger] row@[b],
                        folder@,
                        audio_files@[i as int]@,
                        program_paths@[b]@,
                        stamps@[i as int]@,
                    ),
            decreases program_paths@.len() - j,
        {
            let tag = text_or_empty(extension(program_paths[j].as_str()));
            let output = output_file_name(folder, stem.as_str(), stamps[i].as_str(), tag.as_str());
            let input = string_of(char_vec(audio_files[i].as_str()).as_slice());
            let program = string_of(char_vec(program_paths[j].as_str()).as_slice());
            row.push(ProcessingJob { input, program, tag, output });
            j = j + 1;
        }
        let ghost before = r@;
        let ghost row_view = row@;
        r.push(row);
        assert(r@[i as int]@ == row_view);
        assert(forall|a: int| 0 <= a < i ==> r@[a] == before[a]);
        i = i + 1;
    }
    r
}

/// The jobs of a batch, each file stamped with the local time when its row
/// is planned: one stamp per file, shared by all of that file's jobs.
pub fn plan_batch(folder: &str, audio_files: &Vec<String>, program_paths: &Vec<String>) -> (r:
    Vec<Vec<ProcessingJob>>)
    ensures
        exists|stamps: Seq<String>|
            stamps.len() == audio_files@.len() && (forall|i: int|
                0 <= i < stamps.len() ==> is_stamp(#[trigger] stamps[i]@)) && is_plan(
                r@,
                folder@,
                audio_files@,
                program_paths@,
                stamps,
            ),
{
    let mut stamps: Vec<String> = Vec::new();
    let mut i: usize = 0;
    while i < audio_files.len()
        invariant
            i <= audio_files@.len(),
            stamps@.len() == i,
            forall|k: int| 0 <= k < i ==> is_stamp(#[trigger] stamps@[k]@),
        decreases audio_files@.len() - i,
    {
        stamps.push(local_stamp());
        i = i + 1;
    }
    let r = plan_jobs(folder, audio_files, program_paths, &stamps);
    assert(is_plan(r@, folder@, audio_files@, program_paths@, stamps@));
    r
}

/// How one job ended.
#[derive(Clone, Copy, Debug, PartialEq, Eq, Structural)]
pub enum JobOutcome {
    /// The output was written.
    Written,
    /// The backend program was gone at dispatch time.
    MissingBackend,
    /// Decoding, processing or encoding failed.
    Failed,
}

/// The outputs written by the jobs of `jobs` (all rows, in order) whose
/// outcome in `outcomes` is `Written`.
pub open spec fn written(jobs: Seq<Vec<ProcessingJob>>, outcomes: Seq<Vec<JobOutcome>>) -> Seq<
    Seq<char>,
>
    decreases jobs.len(),
{
    if jobs.len() == 0 {
        seq![]
    } else {
        written(jobs.drop_last(), outcomes.drop_last()) + written_row(
            jobs.last()@,
            outcomes[jobs.len() - 1]@,
        )
    }
}

/// The outputs written by the jobs of one row.
pub open spec fn written_row(jobs: Seq<ProcessingJob>, outcomes: Seq<JobOutcome>) -> Seq<Seq<char>>
    decreases jobs.len(),
{
    if jobs.len() == 0 {
        seq![]
    } else {
        written_row(jobs.drop_last(), outcomes.subrange(0, jobs.len() - 1)) + if outcomes[jobs.len()
            - 1] == JobOutcome::Written {
            seq![jobs.last().output@]
        } else {
            seq![]
        }
    }
}

/// Each row of `outcomes` has as many outcomes as the same row of `jobs`.
pub open spec fn same_shape(jobs: Seq<Vec<ProcessingJob>>, outcomes: Seq<Vec<JobOutcome>>) -> bool {
    jobs.len() == outcomes.len() && forall|i: int|
        0 <= i < jobs.len() ==> #[trigger] jobs[i]@.len() == outcomes[i]@.len()
}

fn row_outputs(jobs: &Vec<ProcessingJob>, outcomes: &Vec<JobOutcome>, out: &mut Vec<String>)
    requires
        jobs@.len() == outcomes@.len(),
    ensures
        crate::text::string_views(final(out)@) == crate::text::string_views(old(out)@)
            + written_row(jobs@, outcomes@),
{
    let mut j: usize = 0;
    assert(outcomes@.subrange(0, 0) =~= outcomes@.take(0));
    while j < jobs.len()
        invariant
            jobs@.len() == outcomes@.len(),
            j <= jobs@.len(),
            crate::text::string_views(out@) == crate::text::string_views(old(out)@)
                + written_row(jobs@.take(j as int), outcomes@.take(j as int)),
        decreases jobs@.len() - j,
    {
        assert(jobs@.take(j + 1).drop_last() =~= jobs@.take(j as int));
        assert(outcomes@.take(j + 1).subrange(0, j as int) =~= outcomes@.take(j as int));
        if outcomes[j] == JobOutcome::Written {
            let ghost before = out@;
            out.push(string_of(char_vec(jobs[j].output.as_str()).as_slice()));
            assert(crate::text::string_views(out@) =~= crate::text::string_views(before).push(
                jobs@[j as int].output@,
            ));
        }
        j = j + 1;
        assert(crate::text::string_views(out@) =~= crate::text::string_views(old(out)@)
            + written_row(jobs@.take(j as int), outcomes@.take(j as int)));
    }
    assert(jobs@.take(jobs@.len() as int) =~= jobs@);
    assert(outcomes@.take(jobs@.len() as int) =~= outcomes@);
}

/// The outputs that a batch wrote: those of its `Written` jobs, row by row.
pub fn written_outputs(jobs: &Vec<Vec<ProcessingJob>>, outcomes: &Vec<Vec<JobOutcome>>) -> (r:
    Vec<String>)
    requires
        same_shape(jobs@, outcomes@),
    ensures
        crate::text::string_views(r@) == written(jobs@, outcomes@),
{
    let mut r: Vec<String> = Vec::new();
    let mut i: usize = 0;
    assert(crate::text::string_views(r@) =~= written(jobs@.take(0), outcomes@.take(0)));
    while i < jobs.len()
        invariant
            same_shape(jobs@, outcomes@),
            i <= jobs@.len(),
            crate::text::string_views(r@) == written(jobs@.take(i as int), outcomes@.take(i as int)),
        decreases jobs@.len() - i,
    {
        assert(jobs@.take(i + 1).drop_last() =~= jobs@.take(i as int));
        assert(outcomes@.take(i + 1).drop_last() =~= outcomes@.take(i as int));
        assert(jobs@[i as int]@.len() == outcomes@[i as int]@.len());
        row_outputs(&jobs[i], &outcomes[i], &mut r);
        i = i + 1;
    }
    assert(jobs@.take(jobs@.len() as int) =~= jobs@);
    assert(outcomes@.take(jobs@.len() as int) =~= outcomes@);
    r
}

proof fn lemma_row_isolation(js: Seq<ProcessingJob>, os: Seq<JobOutcome>, j: int)
    requires
        js.len() <= os.len(),
        0 <= j < js.len(),
        os[j] == JobOutcome::Written,
    ensures
        written_row(js, os).contains(js[j].output@),
    decreases js.len(),
{
    let n = js.len() - 1;
    let prev = written_row(js.drop_last(), os.subrange(0, n as int));
    if j == n {
        assert(written_row(js, os) == prev + seq![js.last().output@]);
        assert(written_row(js, os)[prev.len() as int] == js[j].output@);
    } else {
        lemma_row_isolation(js.drop_last(), os.subrange(0, n as int), j);
        let k = choose|k: int| 0 <= k < prev.len() && prev[k] == js[j].output@;
        assert(written_row(js, os)[k] == js[j].output@);
    }
}

/// Jobs are isolated: a job that wrote its output has it among the batch's
/// written outputs, whatever the outcomes of all the other jobs were.
pub proof fn lemma_batch_isolation(
    jobs: Seq<Vec<ProcessingJob>>,
    outcomes: Seq<Vec<JobOutcome>>,
    i: int,
    j: int,
)
    requires
        same_shape(jobs, outcomes),
        0 <= i < jobs.len(),
        0 <= j < jobs[i]@.len(),
        outcomes[i]@[j] == JobOutcome::Written,
    ensures
        written(jobs, outcomes).contains(jobs[i]@[j].output@),
    decreases jobs.len(),
{
    let n = jobs.len() - 1;
    let prev = written(jobs.drop_last(), outcomes.drop_last());
    let row = written_row(jobs.last()@, outcomes[n]@);
    assert(written(jobs, outcomes) == prev + row);
    if i == n {
        assert(jobs[n]@.len() == outcomes[n]@.len());
        lemma_row_isolation(jobs.last()@, outcomes[n]@, j);
        let k = choose|k: int| 0 <= k < row.len() && row[k] == jobs[i]@[j].output@;
        assert((prev + row)[prev.len() + k] == jobs[i]@[j].output@);
    } else {
        assert(same_shape(jobs.drop_last(), outcomes.drop_last())) by {
            assert forall|a: int| 0 <= a < n implies #[trigger] jobs.drop_last()[a]@.len()
                == outcomes.drop_last()[a]@.len() by {
                assert(jobs[a]@.len() == outcomes[a]@.len());
            }
        }
        lemma_batch_isolation(jobs.drop_last(), outcomes.drop_last(), i, j);
        let k = choose|k: int| 0 <= k < prev.len() && prev[k] == jobs[i]@[j].output@;
        assert((prev + row)[k] == jobs[i]@[j].output@);
    }
}

} // verus!
