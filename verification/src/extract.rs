//! Flattening benchmark entries into output rows.
//!
//! An entry yields one row per timing sample, each row carrying the
//! sample's rendering, the two tags parsed from the entry's `tags`
//! option, and the `/`-joined parameters parsed from its captured
//! output block. An entry without the expected `results`, `app.options`
//! or a usable `tags` option is skipped without a diagnostic; one whose
//! tag string, `ms_run` array or parameter block is present but
//! malformed stops the whole run with an error.

use vstd::prelude::*;
use vstd::string::StringExecFns;
use crate::numeral::{spec_i64_chars, format_i64};
use crate::parse::{spec_parse_tags, parse_tags, spec_params, parse_params};
use crate::text::{spec_join, join, chars_of, chars_to_string, append_chars};
use crate::value::{Value, spec_get, spec_index, spec_as_array, spec_as_str};

verus! {

/// Why a run was stopped.
#[derive(Clone, Copy, Debug, PartialEq, Eq, Structural)]
pub enum ExtractError {
    /// The document root holds no `benchmark` array.
    InvalidFormat,
    /// A `tags` option was found but its string is absent or does not
    /// hold two integers.
    MalformedTags,
    /// An entry's first result block has no `ms_run` array.
    MissingMsRun,
    /// An entry's first result block has no captured output string.
    MissingParameterBlock,
    /// A parameter block's first line is not a non-negative count.
    BadParameterCount,
}

/// Field lookup carried through an absent value.
pub open spec fn and_get(v: Option<Value>, key: Seq<char>) -> Option<Value> {
    match v {
        Some(x) => spec_get(x, key),
        None => None,
    }
}

/// Element lookup carried through an absent value.
pub open spec fn and_index(v: Option<Value>, i: int) -> Option<Value> {
    match v {
        Some(x) => spec_index(x, i),
        None => None,
    }
}

/// Array coercion carried through an absent value.
pub open spec fn and_array(v: Option<Value>) -> Option<Seq<Value>> {
    match v {
        Some(x) => spec_as_array(x),
        None => None,
    }
}

/// String coercion carried through an absent value.
pub open spec fn and_str(v: Option<Value>) -> Option<Seq<char>> {
    match v {
        Some(x) => spec_as_str(x),
        None => None,
    }
}

/// The value itself when it is a table, else absent.
pub open spec fn and_table(v: Option<Value>) -> Option<Value> {
    match v {
        Some(x) => if x matches Value::Table(_) {
            Some(x)
        } else {
            None
        },
        None => None,
    }
}

/// An entry's first result block: `entry.results[0]`, a table.
pub open spec fn spec_results(entry: Value) -> Option<Value> {
    and_table(and_index(spec_get(entry, "results"@), 0))
}

/// An entry's option list: `entry.app.options`, an array.
pub open spec fn spec_options(entry: Value) -> Option<Seq<Value>> {
    and_array(and_get(and_table(spec_get(entry, "app"@)), "options"@))
}

/// The `contents` of the first option named `tags` that has contents.
pub open spec fn spec_tags_contents(options: Seq<Value>) -> Option<Value>
    decreases options.len(),
{
    if options.len() == 0 {
        None
    } else if and_str(spec_get(options[0], "name"@)) == Some("tags"@) && spec_get(
        options[0],
        "contents"@,
    ) is Some {
        spec_get(options[0], "contents"@)
    } else {
        spec_tags_contents(options.drop_first())
    }
}

/// An entry's timing samples: `results[0].ms_run`, an array.
pub open spec fn spec_ms_run(entry: Value) -> Option<Seq<Value>> {
    match spec_results(entry) {
        Some(results) => and_array(spec_get(results, "ms_run"@)),
        None => None,
    }
}

/// An entry's parameter block: `results[0].post[0].output[0]`, a string.
pub open spec fn spec_param_block(entry: Value) -> Option<Seq<char>> {
    match spec_results(entry) {
        Some(results) => and_str(
            and_index(and_get(and_index(spec_get(results, "post"@), 0), "output"@), 0),
        ),
        None => None,
    }
}

/// One output row: the sample's rendering, the two tags and the joined
/// parameters, comma-separated.
pub open spec fn spec_row(runtime: Seq<char>, left: i64, right: i64, joined: Seq<char>) -> Seq<
    char,
> {
    runtime + seq![','] + spec_i64_chars(left as int) + seq![','] + spec_i64_chars(right as int)
        + seq![','] + joined
}

/// A sample's rendering in its row: a float's carried rendering, an
/// integer's decimal rendering; a sample of any other kind has none.
pub open spec fn spec_sample_rendering(sample: Value) -> Option<Seq<char>> {
    match sample {
        Value::Float(f) => Some(f@),
        Value::Int(n) => Some(spec_i64_chars(n as int)),
        _ => None,
    }
}

/// The rows of a sample list: one per numeric sample, in order; samples
/// that are not numeric are dropped.
pub open spec fn spec_rows(samples: Seq<Value>, left: i64, right: i64, joined: Seq<char>) -> Seq<
    Seq<char>,
>
    decreases samples.len(),
{
    if samples.len() == 0 {
        Seq::empty()
    } else {
        spec_rows(samples.drop_last(), left, right, joined) + (match spec_sample_rendering(
            samples.last(),
        ) {
            Some(runtime) => seq![spec_row(runtime, left, right, joined)],
            None => Seq::<Seq<char>>::empty(),
        })
    }
}

/// What one entry yields: its rows, nothing for a skipped entry, or the
/// error that stops the run.
pub open spec fn spec_entry_rows(entry: Value) -> Result<Seq<Seq<char>>, ExtractError> {
    match spec_results(entry) {
        None => Ok(Seq::empty()),
        Some(results) => match spec_options(entry) {
            None => Ok(Seq::empty()),
            Some(options) => match spec_tags_contents(options) {
                None => Ok(Seq::empty()),
                Some(contents) => match and_str(and_index(Some(contents), 0)) {
                    None => Err(ExtractError::MalformedTags),
                    Some(tag_string) => match spec_parse_tags(tag_string) {
                        None => Err(ExtractError::MalformedTags),
                        Some(tags) => match spec_ms_run(entry) {
                            None => Err(ExtractError::MissingMsRun),
                            Some(samples) => match spec_param_block(entry) {
                                None => Err(ExtractError::MissingParameterBlock),
                                Some(block) => match spec_params(block) {
                                    None => Err(ExtractError::BadParameterCount),
                                    Some(params) => Ok(
                                        spec_rows(
                                            samples,
                                            tags.0,
                                            tags.1,
                                            spec_join(params, '/'),
                                        ),
                                    ),
                                },
                            },
                        },
                    },
                },
            },
        },
    }
}

/// What a list of entries yields: their rows concatenated in order, or
/// the first error.
pub open spec fn spec_entries_rows(entries: Seq<Value>) -> Result<Seq<Seq<char>>, ExtractError>
    decreases entries.len(),
{
    if entries.len() == 0 {
        Ok(Seq::empty())
    } else {
        match spec_entry_rows(entries[0]) {
            Err(e) => Err(e),
            Ok(rows) => match spec_entries_rows(entries.drop_first()) {
                Err(e) => Err(e),
                Ok(rest) => Ok(rows + rest),
            },
        }
    }
}

/// What a document yields: the rows of its `benchmark` entries, or
/// `InvalidFormat` when it has no `benchmark` array.
pub open spec fn spec_document_rows(doc: Value) -> Result<Seq<Seq<char>>, ExtractError> {
    match and_array(spec_get(doc, "benchmark"@)) {
        None => Err(ExtractError::InvalidFormat),
        Some(entries) => spec_entries_rows(entries),
    }
}

/// An entry's tag string: the first element of the `tags` option's
/// contents, a string.
pub open spec fn spec_tag_string(entry: Value) -> Option<Seq<char>> {
    match spec_options(entry) {
        Some(options) => match spec_tags_contents(options) {
            Some(contents) => and_str(and_index(Some(contents), 0)),
            None => None,
        },
        None => None,
    }
}

/// Whether every sample is numeric: a float or an integer.
pub open spec fn all_numeric(samples: Seq<Value>) -> bool {
    forall|i: int| 0 <= i < samples.len() ==> #[trigger] spec_sample_rendering(samples[i]) is Some
}

/// Whether an entry has the full expected shape: each resolution step
/// succeeds and both encoded strings parse.
pub open spec fn entry_well_formed(entry: Value) -> bool {
    &&& spec_results(entry) is Some
    &&& spec_options(entry) is Some
    &&& spec_tags_contents(spec_options(entry)->Some_0) is Some
    &&& spec_tag_string(entry) is Some
    &&& spec_parse_tags(spec_tag_string(entry)->Some_0) is Some
    &&& spec_ms_run(entry) is Some
    &&& spec_param_block(entry) is Some
    &&& spec_params(spec_param_block(entry)->Some_0) is Some
}

/// Over all-numeric samples the rows are one per sample, in order.
proof fn lemma_spec_rows_all_numeric(samples: Seq<Value>, left: i64, right: i64, joined: Seq<char>)
    requires
        all_numeric(samples),
    ensures
        spec_rows(samples, left, right, joined).len() == samples.len(),
        forall|i: int|
            0 <= i < samples.len() ==> spec_rows(samples, left, right, joined)[i] == spec_row(
                spec_sample_rendering(samples[i])->Some_0,
                left,
                right,
                joined,
            ),
    decreases samples.len(),
{
    if samples.len() > 0 {
        let head = samples.drop_last();
        assert(all_numeric(head));
        lemma_spec_rows_all_numeric(head, left, right, joined);
        assert(spec_sample_rendering(samples.last()) is Some);
    }
}

/// Law: a well-formed entry whose samples are all numeric yields exactly
/// one row per element of `ms_run`.
pub proof fn lemma_one_row_per_sample(entry: Value)
    requires
        entry_well_formed(entry),
        all_numeric(spec_ms_run(entry)->Some_0),
    ensures
        spec_entry_rows(entry) is Ok,
        spec_entry_rows(entry)->Ok_0.len() == spec_ms_run(entry)->Some_0.len(),
{
    let tags = spec_parse_tags(spec_tag_string(entry)->Some_0)->Some_0;
    let joined = spec_join(spec_params(spec_param_block(entry)->Some_0)->Some_0, '/');
    lemma_spec_rows_all_numeric(spec_ms_run(entry)->Some_0, tags.0, tags.1, joined);
}

/// Law: within one well-formed entry every row carries the same tags and
/// the same joined parameters; only the leading sample rendering varies,
/// and it follows `ms_run`'s order.
pub proof fn lemma_rows_share_entry_fields(entry: Value)
    requires
        entry_well_formed(entry),
        all_numeric(spec_ms_run(entry)->Some_0),
    ensures
        spec_entry_rows(entry) is Ok,
        forall|i: int|
            0 <= i < spec_entry_rows(entry)->Ok_0.len() ==> spec_entry_rows(entry)->Ok_0[i]
                == spec_row(
                spec_sample_rendering(spec_ms_run(entry)->Some_0[i])->Some_0,
                spec_parse_tags(spec_tag_string(entry)->Some_0)->Some_0.0,
                spec_parse_tags(spec_tag_string(entry)->Some_0)->Some_0.1,
                spec_join(spec_params(spec_param_block(entry)->Some_0)->Some_0, '/'),
            ),
{
    let tags = spec_parse_tags(spec_tag_string(entry)->Some_0)->Some_0;
    let joined = spec_join(spec_params(spec_param_block(entry)->Some_0)->Some_0, '/');
    lemma_spec_rows_all_numeric(spec_ms_run(entry)->Some_0, tags.0, tags.1, joined);
    lemma_one_row_per_sample(entry);
}

/// Law: an entry whose options hold no usable `tags` option yields no
/// rows and no error.
pub proof fn lemma_no_tags_option_skips_entry(entry: Value)
    requires
        spec_results(entry) is Some,
        spec_options(entry) is Some,
        spec_tags_contents(spec_options(entry)->Some_0) is None,
    ensures
        spec_entry_rows(entry) == Ok::<Seq<Seq<char>>, ExtractError>(Seq::<Seq<char>>::empty()),
{
}

/// Law: a document without a `benchmark` array yields no rows, only the
/// invalid-format error.
pub proof fn lemma_missing_benchmark_is_invalid(doc: Value)
    requires
        and_array(spec_get(doc, "benchmark"@)) is None,
    ensures
        spec_document_rows(doc) == Err::<Seq<Seq<char>>, ExtractError>(ExtractError::InvalidFormat),
{
}

/// The characters of each produced row, for stating results.
pub open spec fn rows_view(r: Result<Vec<String>, ExtractError>) -> Result<
    Seq<Seq<char>>,
    ExtractError,
> {
    match r {
        Ok(rows) => Ok(rows.deep_view()),
        Err(e) => Err(e),
    }
}

/// An empty row list, for skipped entries.
fn no_rows() -> (r: Vec<String>)
    ensures
        r.deep_view() == Seq::<Seq<char>>::empty(),
{
    let r: Vec<String> = Vec::new();
    proof {
        assert(r.deep_view() =~= Seq::<Seq<char>>::empty());
    }
    r
}

/// The `contents` of the first option named `tags` that has contents,
/// exactly as `spec_tags_contents` states.
fn find_tags_contents<'a>(options: &'a Vec<Value>) -> (r: Option<&'a Value>)
    ensures
        match r {
            Some(c) => spec_tags_contents(options@) == Some(*c),
            None => spec_tags_contents(options@) is None,
        },
{
    let tags_key = String::from_str("tags");
    let n = options.len();
    let mut j: usize = 0;
    proof {
        assert(options@.skip(0) =~= options@);
    }
    while j < n
        invariant
            j <= n,
            n == options@.len(),
            tags_key@ == "tags"@,
            spec_tags_contents(options@) == spec_tags_contents(options@.skip(j as int)),
        decreases n - j,
    {
        let ghost sk = options@.skip(j as int);
        proof {
            assert(sk[0] == options@[j as int]);
        }
        let opt = &options[j];
        let is_tags = match opt.get("name") {
            Some(nv) => match nv.as_str() {
                Some(s) => *s == tags_key,
                None => false,
            },
            None => false,
        };
        if is_tags {
            match opt.get("contents") {
                Some(c) => {
                    proof {
                        assert(spec_tags_contents(sk) == spec_get(sk[0], "contents"@));
                    }
                    return Some(c);
                },
                None => {},
            }
        }
        proof {
            assert(sk.drop_first() =~= options@.skip(j + 1));
        }
        j = j + 1;
    }
    proof {
        assert(options@.skip(n as int) =~= Seq::<Value>::empty());
    }
    None
}

/// One output row from its four parts.
fn make_row(runtime: &String, left_chars: &Vec<char>, right_chars: &Vec<char>, joined: &String) -> (
    row: String)
    ensures
        row@ == runtime@ + seq![','] + left_chars@ + seq![','] + right_chars@ + seq![','] + joined@,
{
    proof {
        reveal_strlit(",");
        assert(","@ =~= seq![',']);
    }
    let mut row = String::new();
    row.append(runtime.as_str());
    row.append(",");
    append_chars(&mut row, left_chars);
    row.append(",");
    append_chars(&mut row, right_chars);
    row.append(",");
    row.append(joined.as_str());
    row
}

/// The rows of one benchmark entry, exactly as `spec_entry_rows` states:
/// one per numeric sample of `ms_run`, or nothing for a skipped entry,
/// or the error that stops the run.
pub fn benchmark_to_csv_rows(entry: &Value) -> (r: Result<Vec<String>, ExtractError>)
    ensures
        rows_view(r) == spec_entry_rows(*entry),
{
    // Step 1: the first result block; absent or not a table skips the entry.
    let results_opt = match entry.get("results") {
        Some(v) => v.index(0),
        None => None,
    };
    let results = match results_opt {
        Some(v) => {
            if v.is_table() {
                v
            } else {
                return Ok(no_rows());
            }
        },
        None => {
            return Ok(no_rows());
        },
    };
    // Step 2: the option list; absent skips the entry.
    let options_opt = match entry.get("app") {
        Some(v) => {
            if v.is_table() {
                v.get("options")
            } else {
                None
            }
        },
        None => None,
    };
    let options = match options_opt {
        Some(v) => match v.as_array() {
            Some(arr) => arr,
            None => {
                return Ok(no_rows());
            },
        },
        None => {
            return Ok(no_rows());
        },
    };
    // Step 3: the tags option; none found skips the entry.
    let contents = match find_tags_contents(options) {
        Some(c) => c,
        None => {
            return Ok(no_rows());
        },
    };
    // Step 4: the tag string; found but unusable stops the run.
    let tag_string = match contents.index(0) {
        Some(v) => match v.as_str() {
            Some(s) => s,
            None => {
                return Err(ExtractError::MalformedTags);
            },
        },
        None => {
            return Err(ExtractError::MalformedTags);
        },
    };
    let tag_chars = chars_of(tag_string.as_str());
    let (left, right) = match parse_tags(&tag_chars) {
        Some(pair) => pair,
        None => {
            return Err(ExtractError::MalformedTags);
        },
    };
    // Step 5: the timing samples; absent stops the run.
    let samples = match results.get("ms_run") {
        Some(v) => match v.as_array() {
            Some(arr) => arr,
            None => {
                return Err(ExtractError::MissingMsRun);
            },
        },
        None => {
            return Err(ExtractError::MissingMsRun);
        },
    };
    // Step 6: the parameter block; absent stops the run, as does a block
    // whose first line is not a count.
    let block_opt = match results.get("post") {
        Some(v) => v.index(0),
        None => None,
    };
    let block_opt = match block_opt {
        Some(v) => v.get("output"),
        None => None,
    };
    let block_opt = match block_opt {
        Some(v) => v.index(0),
        None => None,
    };
    let block = match block_opt {
        Some(v) => match v.as_str() {
            Some(s) => s,
            None => {
                return Err(ExtractError::MissingParameterBlock);
            },
        },
        None => {
            return Err(ExtractError::MissingParameterBlock);
        },
    };
    let params = match parse_params(block.as_str()) {
        Some(ps) => ps,
        None => {
            return Err(ExtractError::BadParameterCount);
        },
    };
    // Step 7: one row per numeric sample.
    let joined = join(&params, '/');
    let left_chars = format_i64(left);
    let right_chars = format_i64(right);
    let ghost joined_view = spec_join(params.deep_view(), '/');
    let mut rows: Vec<String> = Vec::new();
    let n = samples.len();
    let mut i: usize = 0;
    proof {
        assert(samples@.take(0) =~= Seq::<Value>::empty());
        assert(rows.deep_view() =~= spec_rows(samples@.take(0), left, right, joined_view));
    }
    while i < n
        invariant
            i <= n,
            n == samples@.len(),
            joined@ == joined_view,
            left_chars@ == spec_i64_chars(left as int),
            right_chars@ == spec_i64_chars(right as int),
            rows.deep_view() == spec_rows(samples@.take(i as int), left, right, joined_view),
        decreases n - i,
    {
        let ghost prefix = samples@.take(i + 1);
        proof {
            assert(prefix.drop_last() =~= samples@.take(i as int));
            assert(prefix.last() == samples@[i as int]);
        }
        match &samples[i] {
            Value::Float(f) => {
                let row = make_row(f, &left_chars, &right_chars, &joined);
                let ghost old_rows = rows.deep_view();
                rows.push(row);
                proof {
                    assert(rows.deep_view() =~= old_rows.push(row@));
                    assert(old_rows.push(row@) =~= old_rows + seq![row@]);
                }
            },
            Value::Int(sample) => {
                let rendered = format_i64(*sample);
                let runtime = chars_to_string(&rendered, 0, rendered.len());
                proof {
                    assert(rendered@.subrange(0, rendered@.len() as int) =~= rendered@);
                }
                let row = make_row(&runtime, &left_chars, &right_chars, &joined);
                let ghost old_rows = rows.deep_view();
                rows.push(row);
                proof {
                    assert(rows.deep_view() =~= old_rows.push(row@));
                    assert(old_rows.push(row@) =~= old_rows + seq![row@]);
                }
            },
            _ => {},
        }
        proof {
            assert(rows.deep_view() + Seq::<Seq<char>>::empty() =~= rows.deep_view());
        }
        i = i + 1;
    }
    proof {
        assert(samples@.take(n as int) =~= samples@);
    }
    Ok(rows)
}

/// The rows of a whole document, exactly as `spec_document_rows` states:
/// the concatenation over its `benchmark` entries in order, an
/// `InvalidFormat` error when that array is absent, or the first entry's
/// error.
pub fn document_to_csv(doc: &Value) -> (r: Result<Vec<String>, ExtractError>)
    ensures
        rows_view(r) == spec_document_rows(*doc),
{
    let entries = match doc.get("benchmark") {
        Some(v) => match v.as_array() {
            Some(arr) => arr,
            None => {
                return Err(ExtractError::InvalidFormat);
            },
        },
        None => {
            return Err(ExtractError::InvalidFormat);
        },
    };
    let mut out: Vec<String> = Vec::new();
    let n = entries.len();
    let mut i: usize = 0;
    proof {
        assert(entries@.skip(0) =~= entries@);
        assert(out.deep_view() + spec_entries_rows(entries@)->Ok_0 =~= spec_entries_rows(
            entries@,
        )->Ok_0);
    }
    while i < n
        invariant
            i <= n,
            n == entries@.len(),
            spec_document_rows(*doc) == spec_entries_rows(entries@),
            spec_entries_rows(entries@) == (match spec_entries_rows(entries@.skip(i as int)) {
                Ok(rest) => Ok::<Seq<Seq<char>>, ExtractError>(out.deep_view() + rest),
                Err(e) => Err(e),
            }),
        decreases n - i,
    {
        let ghost sk = entries@.skip(i as int);
        proof {
            assert(sk[0] == entries@[i as int]);
            assert(sk.drop_first() =~= entries@.skip(i + 1));
        }
        match benchmark_to_csv_rows(&entries[i]) {
            Err(e) => {
                return Err(e);
            },
            Ok(mut rows) => {
                let ghost old_out = out.deep_view();
                let ghost new_rows = rows.deep_view();
                out.append(&mut rows);
                proof {
                    assert(out.deep_view() =~= old_out + new_rows);
                    if spec_entries_rows(entries@.skip(i + 1)) is Ok {
                        assert(old_out + (new_rows + spec_entries_rows(entries@.skip(i + 1))->Ok_0)
                            =~= (old_out + new_rows) + spec_entries_rows(
                            entries@.skip(i + 1),
                        )->Ok_0);
                    }
                }
            },
        }
        i = i + 1;
    }
    proof {
        assert(entries@.skip(n as int) =~= Seq::<Value>::empty());
        assert(out.deep_view() + Seq::<Seq<char>>::empty() =~= out.deep_view());
    }
    Ok(out)
}

} // verus!
