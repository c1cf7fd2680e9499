//! Data capture loaders: turning an ordered list of per-shard input files
//! into a feature matrix, a label vector and a shard-attribution index.
//!
//! A loader preserves input order when assigning sample positions, emits a
//! shard boundary whenever the shard key changes between consecutive
//! inputs, extracts the label by the loader's rule and keeps the remaining
//! values as features, aborts on the first malformed record, and produces a
//! rectangular matrix.

use vstd::prelude::*;

use crate::attribution::{
    attr, build_attribution, lemma_attr_partition, ranges_distinct_adjacent, ranges_partition,
    ranges_view, sum, RangeEntry, ShardKey,
};
use crate::numeric::{is_number_lit, is_numeric_cell, parse_u32, spec_parse_u32};

verus! {

/// One input handed to a loader: the file's path, the shard its samples are
/// attributed to, and the file's raw bytes (reading from disk is the
/// caller's part).
pub struct CaptureInput {
    pub path: String,
    pub shard: ShardKey,
    pub bytes: Vec<u8>,
}

/// Errors of sample loading.
#[derive(Debug, PartialEq, Eq)]
pub enum LoadError {
    /// A record that cannot be parsed: the file's path and the record's
    /// 0-based position in it.
    RecordParseError { path: String, row: usize },
    /// Feature rows of unequal length (the matrix must be rectangular), or
    /// a label column lying outside the record.
    SchemaMismatch,
}

/// Where loading failed, in ghost terms: at a record of one input, or on
/// the matrix shape.
pub enum LoadFailure {
    ParseAt { file: int, row: int },
    Schema,
}

/// The shard key of every input, in input order.
pub open spec fn input_keys(inputs: Seq<CaptureInput>) -> Seq<ShardKey> {
    inputs.map_values(|ci: CaptureInput| ci.shard)
}

/// Deep view of a list of feature rows.
pub open spec fn rows_deep<F: DeepView>(features: Seq<Vec<F>>) -> Seq<Seq<F::V>> {
    features.map_values(|v: Vec<F>| v.deep_view())
}

/// A polymorphic data capture capability.  Every implementation preserves
/// input order, emits one attribution range per run of equal consecutive
/// shard keys, returns one label per feature row, and its ranges partition
/// the sample positions exactly.
pub trait DataLoader {
    type Feature;

    /// The loader succeeds on `inputs` with exactly these feature rows,
    /// labels and attribution ranges.
    spec fn load_ok(
        &self,
        inputs: Seq<CaptureInput>,
        features: Seq<Vec<Self::Feature>>,
        preds: Seq<u32>,
        ranges: Seq<RangeEntry>,
    ) -> bool;

    /// The loader fails on `inputs` with exactly this error.
    spec fn load_err(&self, inputs: Seq<CaptureInput>, e: LoadError) -> bool;

    /// Loads every sample of every input, in input order: the feature
    /// rows, the parallel label vector, and the shard-attribution ranges,
    /// which partition `[0, sample_count)` exactly.
    fn load_all_samples(&self, inputs: &Vec<CaptureInput>) -> (r: Result<
        (Vec<Vec<Self::Feature>>, Vec<u32>, Vec<RangeEntry>),
        LoadError,
    >)
        ensures
            match r {
                Ok(out) => {
                    &&& self.load_ok(inputs@, out.0@, out.1@, out.2@)
                    &&& out.0@.len() == out.1@.len()
                    &&& ranges_partition(ranges_view(out.2@), out.0@.len() as int)
                    &&& ranges_distinct_adjacent(ranges_view(out.2@))
                    &&& exists|counts: Seq<nat>|
                        counts.len() == inputs@.len() && #[trigger] attr(input_keys(inputs@), counts)
                            == ranges_view(out.2@) && sum(counts) == out.0@.len()
                },
                Err(e) => self.load_err(inputs@, e),
            },
    ;
}

/// What the configured record parser yields for a byte buffer: one element
/// per record, each either the record's cells or a parse failure at that
/// position.
pub uninterp spec fn csv_records_of(data: Seq<u8>, delimiter: u8, has_headers: bool) -> Seq<
    Option<Seq<Seq<char>>>,
>;

/// Relies on csv's `Reader`: parsing a byte buffer is a function of the
/// buffer, the delimiter and the header flag alone; each yielded record is
/// either its cells or a parse failure at that record's position.
#[verifier::external_body]
fn read_csv_records(data: &Vec<u8>, delimiter: u8, has_headers: bool) -> (r: Vec<
    Option<Vec<String>>,
>)
    ensures
        r.deep_view() == csv_records_of(data@, delimiter, has_headers),
{
    let mut rdr = csv::ReaderBuilder::new()
        .has_headers(has_headers)
        .delimiter(delimiter)
        .flexible(true)
        .from_reader(data.as_slice());
    rdr.records()
        .map(|rec| rec.ok().map(|sr| sr.iter().map(|cell| cell.to_string()).collect()))
        .collect()
}

/// Ghost state of a delimited-text loading pass: the feature rows and
/// labels collected so far, the per-input sample counts of the inputs done,
/// and the feature-row width once one row has been seen.
pub struct CsvState {
    pub features: Seq<Seq<Seq<char>>>,
    pub preds: Seq<u32>,
    pub counts: Seq<nat>,
    pub width: Option<int>,
}

/// Every cell of the record except the label column is a well-formed
/// decimal literal.
pub open spec fn row_cells_ok(row: Seq<Seq<char>>, col: int) -> bool {
    forall|j: int| 0 <= j < row.len() && j != col ==> is_number_lit(#[trigger] row[j])
}

/// State after the first `k` records of one input, starting from `st`:
/// a failed record or a label that does not parse is a parse error at that
/// record; a record width differing from earlier rows, or a label column
/// outside the record, is a schema mismatch.
pub open spec fn csv_rows_spec(
    st: CsvState,
    rows: Seq<Option<Seq<Seq<char>>>>,
    k: int,
    col: int,
    file: int,
) -> Result<CsvState, LoadFailure>
    decreases k,
{
    if k <= 0 {
        Ok(st)
    } else {
        match csv_rows_spec(st, rows, k - 1, col, file) {
            Err(e) => Err(e),
            Ok(s) => match rows[k - 1] {
                None => Err(LoadFailure::ParseAt { file, row: k - 1 }),
                Some(row) => {
                    if (s.width matches Some(w) && w != row.len()) {
                        Err(LoadFailure::Schema)
                    } else if col >= row.len() {
                        Err(LoadFailure::Schema)
                    } else if spec_parse_u32(row[col]) is None {
                        Err(LoadFailure::ParseAt { file, row: k - 1 })
                    } else if !row_cells_ok(row, col) {
                        Err(LoadFailure::ParseAt { file, row: k - 1 })
                    } else {
                        Ok(
                            CsvState {
                                features: s.features.push(row.remove(col)),
                                preds: s.preds.push(spec_parse_u32(row[col]).unwrap()),
                                counts: s.counts,
                                width: Some(row.len() as int),
                            },
                        )
                    }
                },
            },
        }
    }
}

/// State after the first `k` inputs: the records of each input in order,
/// with the input's sample count appended once the whole input is done.
pub open spec fn csv_inputs_spec(
    inputs: Seq<CaptureInput>,
    k: int,
    delimiter: u8,
    has_headers: bool,
    col: int,
) -> Result<CsvState, LoadFailure>
    decreases k,
{
    if k <= 0 {
        Ok(CsvState { features: Seq::empty(), preds: Seq::empty(), counts: Seq::empty(), width: None })
    } else {
        match csv_inputs_spec(inputs, k - 1, delimiter, has_headers, col) {
            Err(e) => Err(e),
            Ok(s) => {
                let rows = csv_records_of(inputs[k - 1].bytes@, delimiter, has_headers);
                match csv_rows_spec(s, rows, rows.len() as int, col, k - 1) {
                    Err(e) => Err(e),
                    Ok(s2) => Ok(
                        CsvState {
                            features: s2.features,
                            preds: s2.preds,
                            counts: s.counts.push(rows.len() as nat),
                            width: s2.width,
                        },
                    ),
                }
            },
        }
    }
}

/// Once record processing has failed for a prefix of one input's records,
/// processing more records fails the same way.
proof fn lemma_csv_rows_err(
    st: CsvState,
    rows: Seq<Option<Seq<Seq<char>>>>,
    k: int,
    k2: int,
    col: int,
    file: int,
)
    requires
        0 <= k <= k2,
        csv_rows_spec(st, rows, k, col, file) is Err,
    ensures
        csv_rows_spec(st, rows, k2, col, file) == csv_rows_spec(st, rows, k, col, file),
    decreases k2 - k,
{
    if k < k2 {
        lemma_csv_rows_err(st, rows, k + 1, k2, col, file);
    }
}

/// Once loading has failed for a prefix of the inputs, loading more inputs
/// fails the same way.
proof fn lemma_csv_inputs_err(
    inputs: Seq<CaptureInput>,
    k: int,
    k2: int,
    delimiter: u8,
    has_headers: bool,
    col: int,
)
    requires
        0 <= k <= k2,
        csv_inputs_spec(inputs, k, delimiter, has_headers, col) is Err,
    ensures
        csv_inputs_spec(inputs, k2, delimiter, has_headers, col) == csv_inputs_spec(
            inputs,
            k,
            delimiter,
            has_headers,
            col,
        ),
    decreases k2 - k,
{
    if k < k2 {
        lemma_csv_inputs_err(inputs, k + 1, k2, delimiter, has_headers, col);
    }
}

/// Loader for delimited-text records: every record is one sample, its
/// label read from the configured column, every other cell a feature.
pub struct CSVLoader {
    pub delimiter: u8,
    pub predictor_column_index: usize,
    pub has_headers: bool,
}

/// Builds the default capture loader: comma-delimited records without
/// headers, with the label in column 4.
pub fn new() -> (r: CSVLoader)
    ensures
        r.delimiter == 44u8,
        r.predictor_column_index == 4usize,
        !r.has_headers,
{
    CSVLoader { delimiter: 44u8, predictor_column_index: 4, has_headers: false }
}

impl CSVLoader {
    /// Outcome of this loader on `inputs`, in ghost terms.
    pub open spec fn spec_load(&self, inputs: Seq<CaptureInput>) -> Result<CsvState, LoadFailure> {
        csv_inputs_spec(
            inputs,
            inputs.len() as int,
            self.delimiter,
            self.has_headers,
            self.predictor_column_index as int,
        )
    }
}

impl DataLoader for CSVLoader {
    type Feature = String;

    open spec fn load_ok(
        &self,
        inputs: Seq<CaptureInput>,
        features: Seq<Vec<String>>,
        preds: Seq<u32>,
        ranges: Seq<RangeEntry>,
    ) -> bool {
        match self.spec_load(inputs) {
            Ok(st) => {
                &&& rows_deep(features) == st.features
                &&& preds == st.preds
                &&& ranges_view(ranges) == attr(input_keys(inputs), st.counts)
            },
            Err(_) => false,
        }
    }

    open spec fn load_err(&self, inputs: Seq<CaptureInput>, e: LoadError) -> bool {
        match self.spec_load(inputs) {
            Ok(_) => false,
            Err(LoadFailure::Schema) => e matches LoadError::SchemaMismatch,
            Err(LoadFailure::ParseAt { file, row }) => e matches LoadError::RecordParseError {
                path,
                row: r,
            } && path@ == inputs[file].path@ && r as int == row,
        }
    }

    #[verifier::loop_isolation(false)]
    #[verifier::rlimit(30)]
    fn load_all_samples(&self, inputs: &Vec<CaptureInput>) -> (r: Result<
        (Vec<Vec<String>>, Vec<u32>, Vec<RangeEntry>),
        LoadError,
    >) {
        let ghost delim = self.delimiter;
        let ghost hh = self.has_headers;
        let ghost colg = self.predictor_column_index as int;
        let col: usize = self.predictor_column_index;
        let mut features: Vec<Vec<String>> = Vec::new();
        let mut preds: Vec<u32> = Vec::new();
        let mut keys: Vec<ShardKey> = Vec::new();
        let mut counts: Vec<usize> = Vec::new();
        let mut width: Option<usize> = None;
        proof {
            assert(rows_deep(features@) =~= Seq::<Seq<Seq<char>>>::empty());
            assert(counts@.map_values(|c: usize| c as nat) =~= Seq::<nat>::empty());
            assert(keys@ =~= input_keys(inputs@.subrange(0, 0)));
        }
        let mut i: usize = 0;
        while i < inputs.len()
            invariant
                i <= inputs@.len(),
                keys@ == input_keys(inputs@.subrange(0, i as int)),
                counts@.len() == i,
                features@.len() == preds@.len(),
                sum(counts@.map_values(|c: usize| c as nat)) == features@.len(),
                csv_inputs_spec(inputs@, i as int, delim, hh, colg) == Ok::<CsvState, LoadFailure>(
                    CsvState {
                        features: rows_deep(features@),
                        preds: preds@,
                        counts: counts@.map_values(|c: usize| c as nat),
                        width: match width {
                            Some(w) => Some(w as int),
                            None => None,
                        },
                    },
                ),
            decreases inputs@.len() - i,
        {
            let ghost st0 = CsvState {
                features: rows_deep(features@),
                preds: preds@,
                counts: counts@.map_values(|c: usize| c as nat),
                width: match width {
                    Some(w) => Some(w as int),
                    None => None,
                },
            };
            let rows: Vec<Option<Vec<String>>> = read_csv_records(
                &inputs[i].bytes,
                self.delimiter,
                self.has_headers,
            );
            let ghost rows_g = csv_records_of(inputs@[i as int].bytes@, delim, hh);
            let mut j: usize = 0;
            while j < rows.len()
                invariant
                    j <= rows@.len(),
                    features@.len() == preds@.len(),
                    features@.len() == st0.features.len() + j,
                    csv_rows_spec(st0, rows_g, j as int, colg, i as int) == Ok::<
                        CsvState,
                        LoadFailure,
                    >(
                        CsvState {
                            features: rows_deep(features@),
                            preds: preds@,
                            counts: st0.counts,
                            width: match width {
                                Some(w) => Some(w as int),
                                None => None,
                            },
                        },
                    ),
                decreases rows@.len() - j,
            {
                proof {
                    assert(rows_g[j as int] == rows@[j as int].deep_view());
                }
                match &rows[j] {
                    None => {
                        proof {
                            lemma_csv_rows_err(st0, rows_g, j + 1, rows_g.len() as int, colg, i as int);
                            lemma_csv_inputs_err(
                                inputs@,
                                i + 1,
                                inputs@.len() as int,
                                delim,
                                hh,
                                colg,
                            );
                        }
                        return Err(
                            LoadError::RecordParseError { path: inputs[i].path.clone(), row: j },
                        );
                    },
                    Some(row) => {
                        let w: usize = row.len();
                        let schema_bad: bool = match width {
                            Some(w0) => w0 != w,
                            None => false,
                        };
                        if schema_bad || col >= w {
                            proof {
                                lemma_csv_rows_err(st0, rows_g, j + 1, rows_g.len() as int, colg, i as int);
                                lemma_csv_inputs_err(
                                    inputs@,
                                    i + 1,
                                    inputs@.len() as int,
                                    delim,
                                    hh,
                                    colg,
                                );
                            }
                            return Err(LoadError::SchemaMismatch);
                        }
                        let pred: Option<u32> = parse_u32(row[col].as_str());
                        proof {
                            assert(row.deep_view()[colg] == row@[colg]@);
                        }
                        match pred {
                            None => {
                                proof {
                                    lemma_csv_rows_err(
                                        st0,
                                        rows_g,
                                        j + 1,
                                        rows_g.len() as int,
                                        colg,
                                        i as int,
                                    );
                                    lemma_csv_inputs_err(
                                        inputs@,
                                        i + 1,
                                        inputs@.len() as int,
                                        delim,
                                        hh,
                                        colg,
                                    );
                                }
                                return Err(
                                    LoadError::RecordParseError {
                                        path: inputs[i].path.clone(),
                                        row: j,
                                    },
                                );
                            },
                            Some(p) => {
                                let ghost rowd = row.deep_view();
                                let mut cells: Vec<String> = Vec::new();
                                let mut t: usize = 0;
                                while t < w
                                    invariant
                                        t <= w,
                                        w == rowd.len(),
                                        colg < w,
                                        rowd == row.deep_view(),
                                        cells.deep_view() =~= (if t <= colg {
                                            rowd.subrange(0, t as int)
                                        } else {
                                            rowd.remove(colg).subrange(0, t - 1)
                                        }),
                                        forall|u: int|
                                            0 <= u < t && u != colg ==> is_number_lit(
                                                #[trigger] rowd[u],
                                            ),
                                    decreases w - t,
                                {
                                    if t != col {
                                        if !is_numeric_cell(row[t].as_str()) {
                                            proof {
                                                assert(rowd[t as int] == row@[t as int]@);
                                                assert(!row_cells_ok(rowd, colg));
                                                lemma_csv_rows_err(
                                                    st0,
                                                    rows_g,
                                                    j + 1,
                                                    rows_g.len() as int,
                                                    colg,
                                                    i as int,
                                                );
                                                lemma_csv_inputs_err(
                                                    inputs@,
                                                    i + 1,
                                                    inputs@.len() as int,
                                                    delim,
                                                    hh,
                                                    colg,
                                                );
                                            }
                                            return Err(
                                                LoadError::RecordParseError {
                                                    path: inputs[i].path.clone(),
                                                    row: j,
                                                },
                                            );
                                        }
                                        cells.push(row[t].clone());
                                        proof {
                                            assert(rowd[t as int] == row@[t as int]@);
                                            if t < colg {
                                                assert(cells.deep_view() =~= rowd.subrange(
                                                    0,
                                                    t + 1,
                                                ));
                                            } else {
                                                assert(cells.deep_view() =~= rowd.remove(
                                                    colg,
                                                ).subrange(0, t as int));
                                            }
                                        }
                                    }
                                    t = t + 1;
                                }
                                proof {
                                    assert(row_cells_ok(rowd, colg));
                                    assert(cells.deep_view() =~= rowd.remove(colg));
                                }
                                let ghost feats0 = rows_deep(features@);
                                let ghost preds0 = preds@;
                                features.push(cells);
                                preds.push(p);
                                width = Some(w);
                                proof {
                                    assert(rows_deep(features@) =~= feats0.push(rowd.remove(colg)));
                                    assert(preds@ =~= preds0.push(p));
                                    assert(spec_parse_u32(rowd[colg]) == Some(p));
                                    assert(csv_rows_spec(st0, rows_g, j + 1, colg, i as int)
                                        matches Ok(s2) && s2.features == rows_deep(features@)
                                        && s2.preds == preds@ && s2.counts == st0.counts
                                        && s2.width == Some(w as int));
                                }
                            },
                        }
                    },
                }
                j = j + 1;
            }
            counts.push(rows.len());
            keys.push(inputs[i].shard);
            proof {
                assert(keys@ =~= input_keys(inputs@.subrange(0, i + 1)));
                assert(counts@.map_values(|c: usize| c as nat) =~= st0.counts.push(
                    rows_g.len() as nat,
                ));
                assert(counts@.map_values(|c: usize| c as nat).drop_last() =~= st0.counts);
            }
            i = i + 1;
        }
        proof {
            assert(inputs@.subrange(0, i as int) =~= inputs@);
        }
        let nf: usize = features.len();
        proof {
            assert(sum(counts@.map_values(|c: usize| c as nat)) == nf);
        }
        let ranges: Vec<RangeEntry> = build_attribution(&keys, &counts);
        proof {
            lemma_attr_partition(keys@, counts@.map_values(|c: usize| c as nat));
            assert(attr(input_keys(inputs@), counts@.map_values(|c: usize| c as nat))
                == ranges_view(ranges@));
        }
        Ok((features, preds, ranges))
    }
}

#[verifier::external_type_specification]
#[verifier::external_body]
pub struct ExRegex(regex::Regex);

/// The first match of the regular expression with source `pattern` in
/// `text`, if any.
pub uninterp spec fn regex_find_of(pattern: Seq<char>, text: Seq<char>) -> Option<Seq<char>>;

/// A compiled regular expression together with the source it was compiled
/// from.  The fields are private: every `Pattern` pairs a compiled regex
/// with its own source, so a find is a function of that source and the
/// haystack.
pub struct Pattern {
    source: String,
    regex: regex::Regex,
}

impl Pattern {
    /// The pattern's source text.
    pub closed spec fn src(&self) -> Seq<char> {
        self.source@
    }

    /// Relies on regex::Regex::new: compiles the source, failing on invalid
    /// pattern syntax.
    #[verifier::external_body]
    pub fn new(src: &str) -> (r: Option<Pattern>)
        ensures
            r matches Some(p) ==> p.src() == src@,
    {
        regex::Regex::new(src).ok().map(
            |regex| Pattern { source: src.to_string(), regex },
        )
    }

    /// Relies on regex::Regex::find: the first match of a pattern is a
    /// function of the pattern's source and the haystack alone.
    #[verifier::external_body]
    pub fn find(&self, text: &str) -> (r: Option<String>)
        ensures
            r matches Some(m) ==> regex_find_of(self.src(), text@) == Some(m@),
            r is None ==> regex_find_of(self.src(), text@) is None,
    {
        self.regex.find(text).map(|m| m.as_str().to_string())
    }
}

/// The raw bytes of the image encoded in `data`, if `data` decodes.
pub uninterp spec fn pixels_of(data: Seq<u8>) -> Option<Seq<u8>>;

/// Relies on image::load_from_memory: decoding is a function of the
/// encoded bytes alone; the decoded image's raw bytes are returned.
#[verifier::external_body]
fn decode_image(data: &Vec<u8>) -> (r: Option<Vec<u8>>)
    ensures
        r.deep_view() == pixels_of(data@),
{
    image::load_from_memory(data.as_slice()).ok().map(|img| img.into_bytes())
}

/// The file name within a '/'-separated path: the suffix after the last
/// '/', or the whole path when it has none.
pub open spec fn file_name_of(p: Seq<char>) -> Seq<char>
    decreases p.len(),
{
    if p.len() == 0 {
        p
    } else if p.last() == '/' {
        Seq::empty()
    } else {
        file_name_of(p.drop_last()).push(p.last())
    }
}

/// Behind the last '/' of a path stands its file name.
proof fn lemma_file_name_suffix(p: Seq<char>, idx: int)
    requires
        0 <= idx < p.len(),
        p[idx] == '/',
        forall|t: int| idx < t < p.len() ==> p[t] != '/',
    ensures
        file_name_of(p) == p.subrange(idx + 1, p.len() as int),
    decreases p.len() - idx,
{
    if idx == p.len() - 1 {
        assert(p.subrange(idx + 1, p.len() as int) =~= Seq::empty());
    } else {
        lemma_file_name_suffix(p.drop_last(), idx);
        assert(p.drop_last().subrange(idx + 1, p.len() - 1) =~= p.subrange(idx + 1, p.len() - 1));
        assert(file_name_of(p) =~= p.subrange(idx + 1, p.len() as int));
    }
}

/// A path without any '/' is its own file name.
proof fn lemma_file_name_whole(p: Seq<char>)
    requires
        forall|t: int| 0 <= t < p.len() ==> p[t] != '/',
    ensures
        file_name_of(p) == p,
    decreases p.len(),
{
    if p.len() > 0 {
        lemma_file_name_whole(p.drop_last());
        assert(file_name_of(p) =~= p);
    }
}

/// Extracts the file name from a '/'-separated path.
fn file_name(path: &String) -> (r: String)
    ensures
        r@ == file_name_of(path@),
{
    let s: &str = path.as_str();
    let n: usize = s.unicode_len();
    let mut k: usize = n;
    while k > 0
        invariant
            k <= n,
            n == path@.len(),
            s@ == path@,
            forall|t: int| k <= t < n ==> path@[t] != '/',
        decreases k,
    {
        if s.get_char(k - 1) == '/' {
            proof {
                lemma_file_name_suffix(path@, k - 1);
            }
            let tail: &str = s.substring_char(k, n);
            return tail.to_owned();
        }
        k = k - 1;
    }
    proof {
        lemma_file_name_whole(path@);
    }
    s.to_owned()
}

/// Ghost state of a raster-image loading pass: the pixel rows and labels
/// collected so far, and the pixel-row width once one image has been seen.
pub struct ImgState {
    pub features: Seq<Seq<u8>>,
    pub preds: Seq<u32>,
    pub width: Option<int>,
}

/// State after the first `k` image inputs: each input is one sample whose
/// features are its raw pixels; its label is extracted from the file name
/// by the two patterns.  An input whose bytes do not decode, whose file
/// name matches neither pattern, or whose extracted label does not parse is
/// a parse error at that input; a pixel count differing from earlier images
/// is a schema mismatch.
pub open spec fn image_inputs_spec(
    inputs: Seq<CaptureInput>,
    k: int,
    look: Seq<char>,
    exact: Seq<char>,
) -> Result<ImgState, LoadFailure>
    decreases k,
{
    if k <= 0 {
        Ok(ImgState { features: Seq::empty(), preds: Seq::empty(), width: None })
    } else {
        match image_inputs_spec(inputs, k - 1, look, exact) {
            Err(e) => Err(e),
            Ok(s) => match pixels_of(inputs[k - 1].bytes@) {
                None => Err(LoadFailure::ParseAt { file: k - 1, row: 0 }),
                Some(px) => {
                    if (s.width matches Some(w) && w != px.len()) {
                        Err(LoadFailure::Schema)
                    } else {
                        match regex_find_of(look, file_name_of(inputs[k - 1].path@)) {
                            None => Err(LoadFailure::ParseAt { file: k - 1, row: 0 }),
                            Some(m1) => match regex_find_of(exact, m1) {
                                None => Err(LoadFailure::ParseAt { file: k - 1, row: 0 }),
                                Some(m2) => match spec_parse_u32(m2) {
                                    None => Err(LoadFailure::ParseAt { file: k - 1, row: 0 }),
                                    Some(v) => Ok(
                                        ImgState {
                                            features: s.features.push(px),
                                            preds: s.preds.push(v),
                                            width: Some(px.len() as int),
                                        },
                                    ),
                                },
                            },
                        }
                    }
                },
            },
        }
    }
}

/// Once image loading has failed for a prefix of the inputs, loading more
/// inputs fails the same way.
proof fn lemma_image_inputs_err(
    inputs: Seq<CaptureInput>,
    k: int,
    k2: int,
    look: Seq<char>,
    exact: Seq<char>,
)
    requires
        0 <= k <= k2,
        image_inputs_spec(inputs, k, look, exact) is Err,
    ensures
        image_inputs_spec(inputs, k2, look, exact) == image_inputs_spec(inputs, k, look, exact),
    decreases k2 - k,
{
    if k < k2 {
        lemma_image_inputs_err(inputs, k + 1, k2, look, exact);
    }
}

/// Loader for raster images: every image file is one sample whose features
/// are its raw pixel values, with the label extracted from the file name by
/// a containing pattern and then an exact pattern.
pub struct ImageLoader {
    pub predictor_extract_regex_lookaround: Pattern,
    pub predictor_extract_regex_exact: Pattern,
}

impl ImageLoader {
    /// Outcome of this loader on `inputs`, in ghost terms.
    pub open spec fn spec_load(&self, inputs: Seq<CaptureInput>) -> Result<ImgState, LoadFailure> {
        image_inputs_spec(
            inputs,
            inputs.len() as int,
            self.predictor_extract_regex_lookaround.src(),
            self.predictor_extract_regex_exact.src(),
        )
    }
}

impl DataLoader for ImageLoader {
    type Feature = u8;

    open spec fn load_ok(
        &self,
        inputs: Seq<CaptureInput>,
        features: Seq<Vec<u8>>,
        preds: Seq<u32>,
        ranges: Seq<RangeEntry>,
    ) -> bool {
        match self.spec_load(inputs) {
            Ok(st) => {
                &&& rows_deep(features) == st.features
                &&& preds == st.preds
                &&& ranges_view(ranges) == attr(
                    input_keys(inputs),
                    Seq::new(inputs.len(), |t: int| 1nat),
                )
            },
            Err(_) => false,
        }
    }

    open spec fn load_err(&self, inputs: Seq<CaptureInput>, e: LoadError) -> bool {
        match self.spec_load(inputs) {
            Ok(_) => false,
            Err(LoadFailure::Schema) => e matches LoadError::SchemaMismatch,
            Err(LoadFailure::ParseAt { file, row }) => e matches LoadError::RecordParseError {
                path,
                row: r,
            } && path@ == inputs[file].path@ && r as int == row,
        }
    }

    #[verifier::loop_isolation(false)]
    fn load_all_samples(&self, inputs: &Vec<CaptureInput>) -> (r: Result<
        (Vec<Vec<u8>>, Vec<u32>, Vec<RangeEntry>),
        LoadError,
    >) {
        let ghost look = self.predictor_extract_regex_lookaround.src();
        let ghost exact = self.predictor_extract_regex_exact.src();
        let mut features: Vec<Vec<u8>> = Vec::new();
        let mut preds: Vec<u32> = Vec::new();
        let mut keys: Vec<ShardKey> = Vec::new();
        let mut counts: Vec<usize> = Vec::new();
        let mut width: Option<usize> = None;
        proof {
            assert(rows_deep(features@) =~= Seq::<Seq<u8>>::empty());
            assert(counts@.map_values(|c: usize| c as nat) =~= Seq::<nat>::empty());
            assert(keys@ =~= input_keys(inputs@.subrange(0, 0)));
        }
        let mut i: usize = 0;
        while i < inputs.len()
            invariant
                i <= inputs@.len(),
                keys@ == input_keys(inputs@.subrange(0, i as int)),
                counts@.len() == i,
                features@.len() == preds@.len(),
                features@.len() == i,
                counts@.map_values(|c: usize| c as nat) == Seq::new(i as nat, |t: int| 1nat),
                sum(counts@.map_values(|c: usize| c as nat)) == features@.len(),
                image_inputs_spec(inputs@, i as int, look, exact) == Ok::<ImgState, LoadFailure>(
                    ImgState {
                        features: rows_deep(features@),
                        preds: preds@,
                        width: match width {
                            Some(w) => Some(w as int),
                            None => None,
                        },
                    },
                ),
            decreases inputs@.len() - i,
        {
            let ghost feats0 = rows_deep(features@);
            let ghost preds0 = preds@;
            let ghost counts0 = counts@;
            let px_opt: Option<Vec<u8>> = decode_image(&inputs[i].bytes);
            match px_opt {
                None => {
                    proof {
                        lemma_image_inputs_err(inputs@, i + 1, inputs@.len() as int, look, exact);
                    }
                    return Err(
                        LoadError::RecordParseError { path: inputs[i].path.clone(), row: 0 },
                    );
                },
                Some(px) => {
                    let w: usize = px.len();
                    let schema_bad: bool = match width {
                        Some(w0) => w0 != w,
                        None => false,
                    };
                    if schema_bad {
                        proof {
                            lemma_image_inputs_err(
                                inputs@,
                                i + 1,
                                inputs@.len() as int,
                                look,
                                exact,
                            );
                        }
                        return Err(LoadError::SchemaMismatch);
                    }
                    let fname: String = file_name(&inputs[i].path);
                    let m1: Option<String> = self.predictor_extract_regex_lookaround.find(
                        fname.as_str(),
                    );
                    match m1 {
                        None => {
                            proof {
                                lemma_image_inputs_err(
                                    inputs@,
                                    i + 1,
                                    inputs@.len() as int,
                                    look,
                                    exact,
                                );
                            }
                            return Err(
                                LoadError::RecordParseError {
                                    path: inputs[i].path.clone(),
                                    row: 0,
                                },
                            );
                        },
                        Some(hit) => {
                            let m2: Option<String> = self.predictor_extract_regex_exact.find(
                                hit.as_str(),
                            );
                            match m2 {
                                None => {
                                    proof {
                                        lemma_image_inputs_err(
                                            inputs@,
                                            i + 1,
                                            inputs@.len() as int,
                                            look,
                                            exact,
                                        );
                                    }
                                    return Err(
                                        LoadError::RecordParseError {
                                            path: inputs[i].path.clone(),
                                            row: 0,
                                        },
                                    );
                                },
                                Some(lbl) => {
                                    match parse_u32(lbl.as_str()) {
                                        None => {
                                            proof {
                                                lemma_image_inputs_err(
                                                    inputs@,
                                                    i + 1,
                                                    inputs@.len() as int,
                                                    look,
                                                    exact,
                                                );
                                            }
                                            return Err(
                                                LoadError::RecordParseError {
                                                    path: inputs[i].path.clone(),
                                                    row: 0,
                                                },
                                            );
                                        },
                                        Some(v) => {
                                            let ghost pxg = px@;
                                            features.push(px);
                                            preds.push(v);
                                            keys.push(inputs[i].shard);
                                            counts.push(1);
                                            width = Some(w);
                                            proof {
                                                assert(rows_deep(features@) =~~= feats0.push(pxg));
                                                assert(preds@ =~= preds0.push(v));
                                                assert(keys@ =~= input_keys(
                                                    inputs@.subrange(0, i + 1),
                                                ));
                                                assert(counts@.map_values(|c: usize| c as nat)
                                                    =~= counts0.map_values(
                                                    |c: usize| c as nat,
                                                ).push(1nat));
                                                assert(counts@.map_values(|c: usize| c as nat)
                                                    =~= Seq::new((i + 1) as nat, |t: int| 1nat));
                                                assert(counts@.map_values(
                                                    |c: usize| c as nat,
                                                ).drop_last() =~= Seq::new(i as nat, |t: int| 1nat));
                                                assert(image_inputs_spec(inputs@, i + 1, look, exact)
                                                    matches Ok(s2) && s2.features == rows_deep(
                                                    features@,
                                                ) && s2.preds == preds@ && s2.width == Some(
                                                    w as int,
                                                ));
                                            }
                                        },
                                    }
                                },
                            }
                        },
                    }
                },
            }
            i = i + 1;
        }
        proof {
            assert(inputs@.subrange(0, i as int) =~= inputs@);
        }
        let nf: usize = features.len();
        proof {
            assert(sum(counts@.map_values(|c: usize| c as nat)) == nf);
        }
        let ranges: Vec<RangeEntry> = build_attribution(&keys, &counts);
        proof {
            lemma_attr_partition(keys@, counts@.map_values(|c: usize| c as nat));
            assert(attr(input_keys(inputs@), counts@.map_values(|c: usize| c as nat))
                == ranges_view(ranges@));
        }
        Ok((features, preds, ranges))
    }
}

} // verus!
