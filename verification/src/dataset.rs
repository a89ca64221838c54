use vstd::prelude::*;

use crate::http_request::{HttpRequest, HttpRequestView};
use crate::random::{seeded_rng, shuffle_indices};
use crate::sample_array::{array_requests, RequestArray};

verus! {

// ---------------------------------------------------------------------------
// Dataset files
// ---------------------------------------------------------------------------
/// The parsed data of one dataset file: where it came from, the id given to
/// it, and the requests it holds.
pub struct WarmDatasetFileData {
    file_path: String,
    id: String,
    samples: RequestArray,
}

/// The mathematical value of a [`WarmDatasetFileData`].
pub struct FileDataView {
    pub file_path: Seq<char>,
    pub id: Seq<char>,
    pub samples: Seq<HttpRequestView>,
}

impl View for WarmDatasetFileData {
    type V = FileDataView;

    closed spec fn view(&self) -> FileDataView {
        FileDataView {
            file_path: self.file_path@,
            id: self.id@,
            samples: array_requests(self.samples),
        }
    }
}

impl WarmDatasetFileData {
    pub fn new(file_path: String, id: String, samples: RequestArray) -> (r: Self)
        ensures
            r@.file_path == file_path@,
            r@.id == id@,
            r@.samples == array_requests(samples),
    {
        Self { file_path, id, samples }
    }

    pub fn get_file_path(&self) -> (r: &str)
        ensures
            r@ == self@.file_path,
    {
        self.file_path.as_str()
    }

    pub fn get_id(&self) -> (r: &str)
        ensures
            r@ == self@.id,
    {
        self.id.as_str()
    }

    pub fn get_samples(&self) -> (r: &RequestArray)
        ensures
            array_requests(*r) == self@.samples,
    {
        &self.samples
    }

    /// The number of samples of this file.
    pub fn samples_len(&self) -> (n: usize)
        ensures
            n == self@.samples.len(),
    {
        self.samples.len()
    }
}

// ---------------------------------------------------------------------------
// Models of a dataset
// ---------------------------------------------------------------------------
/// The value of a list of labelled files.
pub open spec fn files_view(files: Seq<(WarmDatasetFileData, bool)>) -> Seq<(FileDataView, bool)> {
    files.map_values(|f: (WarmDatasetFileData, bool)| (f.0@, f.1))
}

/// The number of samples of all the files together.
pub open spec fn total_samples(files: Seq<(FileDataView, bool)>) -> nat
    decreases files.len(),
{
    if files.len() == 0 {
        0
    } else {
        total_samples(files.drop_last()) + files.last().0.samples.len()
    }
}

/// The number of samples in the files that carry `label`.
pub open spec fn class_samples(files: Seq<(FileDataView, bool)>, label: bool) -> nat
    decreases files.len(),
{
    if files.len() == 0 {
        0
    } else {
        class_samples(files.drop_last(), label) + if files.last().1 == label {
            files.last().0.samples.len()
        } else {
            0
        }
    }
}

/// The number of files that carry `label`.
pub open spec fn class_files(files: Seq<(FileDataView, bool)>, label: bool) -> nat
    decreases files.len(),
{
    if files.len() == 0 {
        0
    } else {
        class_files(files.drop_last(), label) + if files.last().1 == label {
            1nat
        } else {
            0nat
        }
    }
}

/// Every sample of the files in order, each with the label of its file.
pub open spec fn labelled_samples(files: Seq<(FileDataView, bool)>) -> Seq<(HttpRequestView, bool)>
    decreases files.len(),
{
    if files.len() == 0 {
        Seq::empty()
    } else {
        let (f, label) = files.last();
        labelled_samples(files.drop_last()) + f.samples.map_values(
            |s: HttpRequestView| (s, label),
        )
    }
}

proof fn lemma_class_sum(files: Seq<(FileDataView, bool)>)
    ensures
        class_samples(files, true) + class_samples(files, false) == total_samples(files),
        class_samples(files, true) <= total_samples(files),
        class_samples(files, false) <= total_samples(files),
        class_files(files, true) + class_files(files, false) == files.len(),
    decreases files.len(),
{
    if files.len() > 0 {
        lemma_class_sum(files.drop_last());
    }
}

proof fn lemma_labelled_len(files: Seq<(FileDataView, bool)>)
    ensures
        labelled_samples(files).len() == total_samples(files),
    decreases files.len(),
{
    if files.len() > 0 {
        lemma_labelled_len(files.drop_last());
    }
}

proof fn lemma_files_view_take(files: Seq<(WarmDatasetFileData, bool)>, i: int)
    requires
        0 <= i < files.len(),
    ensures
        files_view(files.take(i + 1)).drop_last() == files_view(files.take(i)),
        files_view(files.take(i + 1)).last() == (files[i].0@, files[i].1),
{
    assert(files_view(files.take(i + 1)).drop_last() =~= files_view(files.take(i)));
}

// ---------------------------------------------------------------------------
// The dataset
// ---------------------------------------------------------------------------
/// The training and test data used by the model: dataset files, each with a
/// label, `true` for malicious samples and `false` for legitimate ones.
pub struct WarmMLDataset {
    samples_files: Vec<(WarmDatasetFileData, bool)>,
}

/// Collects dataset files before building a [`WarmMLDataset`].
pub struct WarmMLDatasetBuilder {
    samples_files: Vec<(WarmDatasetFileData, bool)>,
}

impl View for WarmMLDataset {
    type V = Seq<(FileDataView, bool)>;

    closed spec fn view(&self) -> Seq<(FileDataView, bool)> {
        files_view(self.samples_files@)
    }
}

impl View for WarmMLDatasetBuilder {
    type V = Seq<(FileDataView, bool)>;

    closed spec fn view(&self) -> Seq<(FileDataView, bool)> {
        files_view(self.samples_files@)
    }
}

impl Default for WarmMLDataset {
    fn default() -> (d: Self)
        ensures
            d@.len() == 0,
    {
        let d = Self { samples_files: Vec::new() };
        assert(d@ =~= Seq::<(FileDataView, bool)>::empty());
        d
    }
}

impl WarmMLDatasetBuilder {
    /// Adds a parsed dataset file with its label.
    pub fn add_file_data(self, file_data: WarmDatasetFileData, label: bool) -> (r: Self)
        ensures
            r@ == self@.push((file_data@, label)),
    {
        let mut samples_files = self.samples_files;
        let ghost before = samples_files@;
        samples_files.push((file_data, label));
        assert(files_view(samples_files@) =~= files_view(before).push((file_data@, label)));
        WarmMLDatasetBuilder { samples_files }
    }

    /// Adds plain samples to the dataset
    ///
    /// # Arguments
    /// * `id` - An id associated to the `samples`.
    /// * `samples` - A list of HTTP request.
    /// * `label` - Set to true if malicious, false otherwise.
    pub fn add_plain(self, id: &str, samples: RequestArray, label: bool) -> (r: Self)
        ensures
            r@.len() == self@.len() + 1,
            r@.drop_last() == self@,
            r@.last().0.file_path == "(plain data)"@,
            r@.last().0.id == id@,
            r@.last().0.samples == array_requests(samples),
            r@.last().1 == label,
    {
        let file_data = WarmDatasetFileData {
            file_path: String::from_str("(plain data)"),
            id: String::from_str(id),
            samples,
        };
        let r = self.add_file_data(file_data, label);
        assert(r@.drop_last() =~= self@);
        r
    }
}

impl WarmMLDataset {
    pub fn builder() -> (b: WarmMLDatasetBuilder)
        ensures
            b@.len() == 0,
    {
        let b = WarmMLDatasetBuilder { samples_files: Vec::new() };
        assert(b@ =~= Seq::<(FileDataView, bool)>::empty());
        b
    }

    /// Gets a reference to the internal samples vec
    pub fn get_files_samples(&self) -> (r: &Vec<(WarmDatasetFileData, bool)>)
        ensures
            files_view(r@) == self@,
    {
        &self.samples_files
    }

    /// Counts the number of samples added
    pub fn get_samples_len(&self) -> (n: usize)
        requires
            total_samples(self@) <= usize::MAX,
        ensures
            n == total_samples(self@),
    {
        let mut total: usize = 0;
        let n = self.samples_files.len();
        let mut i: usize = 0;
        while i < n
            invariant
                n == self.samples_files.len(),
                0 <= i <= n,
                total_samples(files_view(self.samples_files@)) <= usize::MAX,
                total == total_samples(files_view(self.samples_files@.take(i as int))),
            decreases n - i,
        {
            proof {
                lemma_files_view_take(self.samples_files@, i as int);
                lemma_total_prefix(files_view(self.samples_files@), i + 1);
                assert(files_view(self.samples_files@.take(i + 1)) =~= files_view(
                    self.samples_files@,
                ).take(i + 1));
            }
            total = total + self.samples_files[i].0.samples_len();
            i = i + 1;
        }
        assert(self.samples_files@.take(n as int) =~= self.samples_files@);
        total
    }

    /// Gets all samples of every dataset file added, in order.
    /// This function makes a copy of each sample.
    pub fn get_samples(&self) -> (r: Vec<HttpRequest>)
        ensures
            r@.map_values(|s: HttpRequest| s@) == labelled_samples(self@).map_values(
                |p: (HttpRequestView, bool)| p.0,
            ),
    {
        let mut acc: Vec<HttpRequest> = Vec::new();
        let n = self.samples_files.len();
        let mut i: usize = 0;
        while i < n
            invariant
                n == self.samples_files.len(),
                0 <= i <= n,
                acc@.map_values(|s: HttpRequest| s@) == labelled_samples(
                    files_view(self.samples_files@.take(i as int)),
                ).map_values(|p: (HttpRequestView, bool)| p.0),
            decreases n - i,
        {
            let file = &self.samples_files[i].0;
            let label = self.samples_files[i].1;
            let ghost before = acc@.map_values(|s: HttpRequest| s@);
            let m = file.samples.len();
            let mut j: usize = 0;
            while j < m
                invariant
                    m == file@.samples.len(),
                    0 <= j <= m,
                    acc@.map_values(|s: HttpRequest| s@) == before + file@.samples.take(j as int),
                decreases m - j,
            {
                let s = file.samples.get(j).duplicate();
                let ghost prev = acc@;
                acc.push(s);
                assert(acc@.map_values(|s: HttpRequest| s@) =~= prev.map_values(
                    |s: HttpRequest| s@,
                ).push(s@));
                assert(file@.samples.take(j + 1) =~= file@.samples.take(j as int).push(s@));
                assert(acc@.map_values(|s: HttpRequest| s@) =~= before + file@.samples.take(
                    j + 1,
                ));
                j = j + 1;
            }
            proof {
                lemma_files_view_take(self.samples_files@, i as int);
                let fv = files_view(self.samples_files@.take(i + 1));
                assert(file@.samples.take(m as int) =~= file@.samples);
                assert(labelled_samples(fv).map_values(|p: (HttpRequestView, bool)| p.0)
                    =~= before + file@.samples);
            }
            i = i + 1;
        }
        assert(self.samples_files@.take(n as int) =~= self.samples_files@);
        acc
    }

    /// Gets the label of every sample, in the order of [`WarmMLDataset::get_samples`].
    pub fn get_labels(&self) -> (r: Vec<bool>)
        ensures
            r@ == labelled_samples(self@).map_values(|p: (HttpRequestView, bool)| p.1),
    {
        let mut acc: Vec<bool> = Vec::new();
        let n = self.samples_files.len();
        let mut i: usize = 0;
        while i < n
            invariant
                n == self.samples_files.len(),
                0 <= i <= n,
                acc@ == labelled_samples(files_view(self.samples_files@.take(i as int))).map_values(
                    |p: (HttpRequestView, bool)| p.1,
                ),
            decreases n - i,
        {
            let label = self.samples_files[i].1;
            let m = self.samples_files[i].0.samples_len();
            let ghost before = acc@;
            let mut j: usize = 0;
            while j < m
                invariant
                    0 <= j <= m,
                    acc@ == before + Seq::new(j as nat, |k: int| label),
                decreases m - j,
            {
                acc.push(label);
                assert(acc@ =~= before + Seq::new((j + 1) as nat, |k: int| label));
                j = j + 1;
            }
            proof {
                lemma_files_view_take(self.samples_files@, i as int);
                let fv = files_view(self.samples_files@.take(i + 1));
                assert(labelled_samples(fv).map_values(|p: (HttpRequestView, bool)| p.1)
                    =~= before + Seq::new(m as nat, |k: int| label));
            }
            i = i + 1;
        }
        assert(self.samples_files@.take(n as int) =~= self.samples_files@);
        acc
    }
}

proof fn lemma_total_prefix(files: Seq<(FileDataView, bool)>, i: int)
    requires
        0 <= i <= files.len(),
    ensures
        total_samples(files.take(i)) <= total_samples(files),
    decreases files.len(),
{
    if i < files.len() {
        lemma_total_prefix(files.drop_last(), i);
        assert(files.drop_last().take(i) =~= files.take(i));
    } else {
        assert(files.take(i) =~= files);
    }
}


// ---------------------------------------------------------------------------
// Ordering the files of a dataset
// ---------------------------------------------------------------------------
/// The number of samples of a labelled file, by which a dataset orders its files.
pub open spec fn sample_count(f: (FileDataView, bool)) -> nat {
    f.0.samples.len()
}

/// The files come in order of their number of samples.
pub open spec fn sorted_by_sample_count(files: Seq<(FileDataView, bool)>) -> bool {
    forall|i: int, j: int|
        0 <= i <= j < files.len() ==> sample_count(files[i]) <= sample_count(files[j])
}

/// The files that hold exactly `n` samples, in their order.
pub open spec fn files_with_count(files: Seq<(FileDataView, bool)>, n: nat) -> Seq<(FileDataView, bool)> {
    files.filter(|f: (FileDataView, bool)| sample_count(f) == n)
}

/// Inserting a file just after the files that hold no more samples than it
/// keeps the order, and adds it last among the files of its size.
proof fn lemma_insert_in_order(o: Seq<(FileDataView, bool)>, x: (FileDataView, bool), pos: int)
    requires
        sorted_by_sample_count(o),
        0 <= pos <= o.len(),
        forall|k: int| 0 <= k < pos ==> sample_count(#[trigger] o[k]) <= sample_count(x),
        pos < o.len() ==> sample_count(o[pos]) > sample_count(x),
    ensures
        sorted_by_sample_count(o.insert(pos, x)),
        forall|n: nat|
            #[trigger] files_with_count(o.insert(pos, x), n) == if n == sample_count(x) {
                files_with_count(o, n).push(x)
            } else {
                files_with_count(o, n)
            },
{
    broadcast use Seq::filter_distributes_over_add, Seq::lemma_filter_push;

    let a = o.take(pos);
    let b = o.skip(pos);
    assert(o =~= a + b);
    assert(o.insert(pos, x) =~= a.push(x) + b);
    assert forall|n: nat|
        #[trigger] files_with_count(o.insert(pos, x), n) == if n == sample_count(x) {
            files_with_count(o, n).push(x)
        } else {
            files_with_count(o, n)
        } by {
        let pred = |f: (FileDataView, bool)| sample_count(f) == n;
        assert(files_with_count(o.insert(pos, x), n) == a.push(x).filter(pred) + b.filter(pred));
        assert(files_with_count(o, n) == a.filter(pred) + b.filter(pred));
        if n == sample_count(x) {
            assert forall|k: int| 0 <= k < b.len() implies !pred(#[trigger] b[k]) by {
                assert(b[k] == o[pos + k]);
            }
            assert(b.all(|f: (FileDataView, bool)| !pred(f)));
            b.lemma_all_neg_filter_empty(pred);
            assert(b.filter(pred) =~= Seq::<(FileDataView, bool)>::empty());
            assert(a.filter(pred) + b.filter(pred) =~= a.filter(pred));
            assert(a.filter(pred).push(x) + b.filter(pred) =~= a.filter(pred).push(x));
        }
    }
}

impl WarmMLDatasetBuilder {
    /// Builds a WarmMLDataset: the files come in order of their number of
    /// samples, and files with as many samples keep the order they were added in.
    pub fn build(self) -> (d: WarmMLDataset)
        ensures
            sorted_by_sample_count(d@),
            forall|n: nat| #[trigger] files_with_count(d@, n) == files_with_count(self@, n),
    {
        broadcast use Seq::lemma_filter_push;

        let mut input = self.samples_files;
        let ghost orig = files_view(input@);
        let mut out: Vec<(WarmDatasetFileData, bool)> = Vec::new();
        let ghost mut i: int = 0;
        assert(orig.skip(0) =~= orig);
        assert forall|n: nat| #[trigger]
            files_with_count(files_view(out@), n) == files_with_count(orig.take(0), n) by {
            reveal(Seq::filter);
            assert(files_view(out@) =~= Seq::<(FileDataView, bool)>::empty());
            assert(orig.take(0) =~= Seq::<(FileDataView, bool)>::empty());
        }
        while input.len() > 0
            invariant
                0 <= i <= orig.len(),
                files_view(input@) == orig.skip(i),
                sorted_by_sample_count(files_view(out@)),
                forall|n: nat| #[trigger]
                    files_with_count(files_view(out@), n) == files_with_count(orig.take(i), n),
            decreases input.len(),
        {
            let ghost before_in = input@;
            let x = input.remove(0);
            proof {
                let fb = files_view(before_in);
                assert(fb.len() == before_in.len());
                assert(fb == orig.skip(i));
                assert(orig.skip(i)[0] == orig[i]);
                assert(fb[0] == (before_in[0].0@, before_in[0].1));
                assert(input@ =~= before_in.skip(1));
                assert forall|k: int| 0 <= k < input@.len() implies #[trigger] files_view(input@)[k]
                    == orig.skip(i + 1)[k] by {
                    assert(fb[k + 1] == orig.skip(i)[k + 1]);
                    assert(input@[k] == before_in[k + 1]);
                }
                assert(files_view(input@) =~= orig.skip(i + 1));
            }
            let key = x.0.samples_len();
            let mut pos: usize = 0;
            while pos < out.len() && out[pos].0.samples_len() <= key
                invariant
                    0 <= pos <= out.len(),
                    forall|k: int|
                        0 <= k < pos ==> sample_count(#[trigger] files_view(out@)[k]) <= key,
                decreases out.len() - pos,
            {
                pos = pos + 1;
            }
            let ghost o = files_view(out@);
            let ghost xv = (x.0@, x.1);
            assert(xv == orig[i]);
            proof {
                lemma_insert_in_order(o, xv, pos as int);
                assert(orig.take(i + 1) =~= orig.take(i).push(orig[i]));
            }
            out.insert(pos, x);
            assert(files_view(out@) =~= o.insert(pos as int, xv));
            proof {
                assert forall|n: nat| #[trigger]
                    files_with_count(files_view(out@), n) == files_with_count(orig.take(i + 1), n) by {
                    let pred = |f: (FileDataView, bool)| sample_count(f) == n;
                    orig.take(i).lemma_filter_push(orig[i], pred);
                    assert(orig.take(i).push(orig[i]).filter(pred) == if pred(orig[i]) {
                        orig.take(i).filter(pred).push(orig[i])
                    } else {
                        orig.take(i).filter(pred)
                    });
                }
                i = i + 1;
            }
        }
        assert(orig.take(i) =~= orig);
        WarmMLDataset { samples_files: out }
    }
}

// ---------------------------------------------------------------------------
// Selecting samples
// ---------------------------------------------------------------------------
/// `p` lists each of the positions `0..n` once.
pub open spec fn is_index_permutation(p: Seq<usize>, n: nat) -> bool {
    &&& p.len() == n
    &&& forall|k: int| 0 <= k < n ==> #[trigger] p[k] < n
    &&& forall|a: int, b: int| 0 <= a < b < n ==> #[trigger] p[a] != #[trigger] p[b]
}

/// `p` holds `n` positions below `len`, no two of them alike.
pub open spec fn distinct_positions(p: Seq<usize>, n: nat, len: nat) -> bool {
    &&& p.len() == n
    &&& forall|k: int| 0 <= k < n ==> #[trigger] p[k] < len
    &&& forall|a: int, b: int| 0 <= a < b < n ==> #[trigger] p[a] != #[trigger] p[b]
}

/// `sel` holds `n` samples of `all`, taken at pairwise distinct positions
/// anywhere in `all`.
pub open spec fn picks_from(sel: Seq<HttpRequestView>, all: Seq<HttpRequestView>, n: nat) -> bool {
    exists|p: Seq<usize>|
        #[trigger] distinct_positions(p, n, all.len()) && sel.len() == n && forall|k: int|
            0 <= k < n ==> #[trigger] sel[k] == all[p[k] as int]
}

/// The smaller of two numbers.
pub open spec fn min_nat(a: nat, b: nat) -> nat {
    if a <= b {
        a
    } else {
        b
    }
}

/// How many samples each file gives when the files carrying `label` share
/// `remaining` samples: in order, such a file gives `per_file` samples or all
/// it has if it has fewer; after each file but the last of the class, the
/// share becomes what remains divided among the files left. A file of the
/// other class gives none here.
pub open spec fn class_takes(
    files: Seq<(FileDataView, bool)>,
    label: bool,
    remaining: int,
    files_left: int,
    per_file: nat,
) -> Seq<nat>
    decreases files.len(),
{
    if files.len() == 0 {
        Seq::empty()
    } else if files[0].1 == label {
        let take = min_nat(per_file, files[0].0.samples.len());
        let rest = remaining - take;
        if files_left <= 1 {
            seq![take] + class_takes(files.drop_first(), label, rest, files_left, per_file)
        } else {
            let share = if rest >= 0 {
                (rest / (files_left - 1)) as nat
            } else {
                0
            };
            seq![take] + class_takes(files.drop_first(), label, rest, files_left - 1, share)
        }
    } else {
        seq![0nat] + class_takes(files.drop_first(), label, remaining, files_left, per_file)
    }
}

/// How many samples the file at position `i` gives when malicious files share
/// `malicious_quota` samples, starting with `malicious_first_share` per file,
/// and legitimate files share `legit_quota`, starting with `legit_first_share`.
pub open spec fn quota_take(
    files: Seq<(FileDataView, bool)>,
    i: int,
    malicious_quota: nat,
    legit_quota: nat,
    malicious_first_share: nat,
    legit_first_share: nat,
) -> nat {
    if files[i].1 {
        class_takes(
            files,
            true,
            malicious_quota as int,
            class_files(files, true) as int,
            malicious_first_share,
        )[i]
    } else {
        class_takes(
            files,
            false,
            legit_quota as int,
            class_files(files, false) as int,
            legit_first_share,
        )[i]
    }
}

proof fn lemma_class_takes_len(
    files: Seq<(FileDataView, bool)>,
    label: bool,
    remaining: int,
    files_left: int,
    per_file: nat,
)
    ensures
        class_takes(files, label, remaining, files_left, per_file).len() == files.len(),
    decreases files.len(),
{
    if files.len() > 0 {
        let take = min_nat(per_file, files[0].0.samples.len());
        let rest = remaining - take;
        if files[0].1 == label {
            if files_left <= 1 {
                lemma_class_takes_len(files.drop_first(), label, rest, files_left, per_file);
            } else {
                let share = if rest >= 0 {
                    (rest / (files_left - 1)) as nat
                } else {
                    0
                };
                lemma_class_takes_len(files.drop_first(), label, rest, files_left - 1, share);
            }
        } else {
            lemma_class_takes_len(files.drop_first(), label, remaining, files_left, per_file);
        }
    }
}

proof fn lemma_class_files_skip(files: Seq<(FileDataView, bool)>, label: bool, i: int)
    requires
        0 <= i < files.len(),
    ensures
        class_files(files.take(i + 1), label) == class_files(files.take(i), label) + if files[i].1
            == label {
            1nat
        } else {
            0nat
        },
{
    assert(files.take(i + 1).drop_last() =~= files.take(i));
}

proof fn lemma_class_files_total(files: Seq<(FileDataView, bool)>, label: bool)
    ensures
        class_files(files, label) <= files.len(),
    decreases files.len(),
{
    if files.len() > 0 {
        lemma_class_files_total(files.drop_first(), label);
        lemma_class_files_drop_first(files, label);
    }
}

proof fn lemma_class_files_drop_first(files: Seq<(FileDataView, bool)>, label: bool)
    requires
        files.len() > 0,
    ensures
        class_files(files, label) == class_files(files.drop_first(), label) + if files[0].1
            == label {
            1nat
        } else {
            0nat
        },
    decreases files.len(),
{
    if files.len() > 1 {
        lemma_class_files_drop_first(files.drop_last(), label);
        assert(files.drop_last().drop_first() =~= files.drop_first().drop_last());
        assert(files.drop_first().last() == files.last());
        assert(files.drop_last()[0] == files[0]);
    } else {
        assert(files.drop_first().len() == 0);
        assert(files.drop_last().len() == 0);
        assert(class_files(files.drop_last(), label) == 0);
        assert(files.last() == files[0]);
    }
}

/// Copies of the samples at the first `k` of `positions`, in that order.
pub fn take_at(samples: &RequestArray, positions: &Vec<usize>, k: usize) -> (r: Vec<HttpRequest>)
    requires
        k <= positions@.len(),
        forall|j: int| 0 <= j < k ==> #[trigger] positions@[j] < array_requests(*samples).len(),
    ensures
        r@.len() == k,
        forall|j: int|
            0 <= j < k ==> #[trigger] r@[j]@ == array_requests(*samples)[positions@[j] as int],
{
    let mut taken: Vec<HttpRequest> = Vec::new();
    let mut i: usize = 0;
    while i < k
        invariant
            k <= positions@.len(),
            forall|j: int| 0 <= j < k ==> #[trigger] positions@[j] < array_requests(*samples).len(),
            0 <= i <= k,
            taken@.len() == i,
            forall|j: int|
                0 <= j < i ==> #[trigger] taken@[j]@ == array_requests(*samples)[positions@[j] as int],
        decreases k - i,
    {
        taken.push(samples.get(positions[i]).duplicate());
        i = i + 1;
    }
    taken
}

impl WarmMLDataset {
    /// The number of malicious samples, of legitimate samples, of malicious
    /// files and of legitimate files.
    pub fn class_totals(&self) -> (r: (usize, usize, usize, usize))
        requires
            total_samples(self@) <= usize::MAX,
        ensures
            r.0 == class_samples(self@, true),
            r.1 == class_samples(self@, false),
            r.2 == class_files(self@, true),
            r.3 == class_files(self@, false),
    {
        let mut n_mal: usize = 0;
        let mut n_legit: usize = 0;
        let mut f_mal: usize = 0;
        let mut f_legit: usize = 0;
        let n = self.samples_files.len();
        let mut i: usize = 0;
        proof {
            lemma_class_sum(self@);
        }
        while i < n
            invariant
                n == self.samples_files.len(),
                0 <= i <= n,
                total_samples(files_view(self.samples_files@)) <= usize::MAX,
                n_mal == class_samples(files_view(self.samples_files@.take(i as int)), true),
                n_legit == class_samples(files_view(self.samples_files@.take(i as int)), false),
                f_mal == class_files(files_view(self.samples_files@.take(i as int)), true),
                f_legit == class_files(files_view(self.samples_files@.take(i as int)), false),
                f_mal + f_legit == i,
            decreases n - i,
        {
            proof {
                lemma_files_view_take(self.samples_files@, i as int);
                let fv = files_view(self.samples_files@);
                assert(files_view(self.samples_files@.take(i + 1)) =~= fv.take(i + 1));
                lemma_total_prefix(fv, i + 1);
                lemma_class_sum(fv.take(i + 1));
            }
            let len = self.samples_files[i].0.samples_len();
            if self.samples_files[i].1 {
                n_mal = n_mal + len;
                f_mal = f_mal + 1;
            } else {
                n_legit = n_legit + len;
                f_legit = f_legit + 1;
            }
            i = i + 1;
        }
        assert(self.samples_files@.take(n as int) =~= self.samples_files@);
        (n_mal, n_legit, f_mal, f_legit)
    }

    /// Takes `n_samples` samples (all of them if the file has fewer) from
    /// `file_data`, at positions that a generator seeded with `seed` picks
    /// from the whole file, into a new [`WarmDatasetFileData`] with the same
    /// path and id; second, the number of samples asked for but not taken.
    fn select_random_data(file_data: &WarmDatasetFileData, n_samples: usize, seed: u64) -> (r: (
        WarmDatasetFileData,
        usize,
    ))
        ensures
            r.0@.file_path == file_data@.file_path,
            r.0@.id == file_data@.id,
            picks_from(
                r.0@.samples,
                file_data@.samples,
                min_nat(n_samples as nat, file_data@.samples.len()),
            ),
            r.1 == n_samples - min_nat(n_samples as nat, file_data@.samples.len()),
    {
        if n_samples == 0 {
            let r = WarmDatasetFileData::new(
                file_data.file_path.clone(),
                file_data.id.clone(),
                RequestArray::from_vec(Vec::new()),
            );
            assert(distinct_positions(Seq::<usize>::empty(), 0, file_data@.samples.len()));
            return (r, 0);
        }
        let mut rng = seeded_rng(seed);
        let len = file_data.samples.len();
        let n = if n_samples > len {
            len
        } else {
            n_samples
        };
        // Every position of the file, in an order that the generator picks.
        let mut indices: Vec<usize> = Vec::new();
        let mut i: usize = 0;
        while i < len
            invariant
                0 <= i <= len,
                indices@ == Seq::new(i as nat, |k: int| k as usize),
            decreases len - i,
        {
            indices.push(i);
            assert(indices@ =~= Seq::new((i + 1) as nat, |k: int| k as usize));
            i = i + 1;
        }
        let ghost ordered = indices@;
        shuffle_indices(&mut indices, &mut rng);
        proof {
            lemma_shuffled_positions(ordered, indices@, len as nat);
        }
        // The samples at the first `n` of them.
        let reduced = take_at(&file_data.samples, &indices, n);
        let r = WarmDatasetFileData::new(
            file_data.file_path.clone(),
            file_data.id.clone(),
            RequestArray::from_vec(reduced),
        );
        let ghost p = indices@.take(n as int);
        assert(forall|j: int| 0 <= j < n ==> #[trigger] r@.samples[j] == file_data@.samples[p[j] as int]);
        assert(distinct_positions(p, n as nat, len as nat));
        (r, n_samples - n)
    }

    /// Reduces each file to the number of samples that its class's quota
    /// gives it (see [`quota_take`]), keeping the order of the files: each file
    /// keeps that many of its samples, taken at distinct positions that a
    /// generator seeded with `seed` picks from the whole file.
    pub fn select_samples_by_quota(
        &self,
        malicious_quota: usize,
        legit_quota: usize,
        malicious_first_share: usize,
        legit_first_share: usize,
        seed: u64,
    ) -> (d: WarmMLDataset)
        requires
            malicious_first_share <= malicious_quota,
            legit_first_share <= legit_quota,
        ensures
            d@.len() == self@.len(),
            forall|i: int|
                0 <= i < self@.len() ==> {
                    &&& (#[trigger] d@[i]).1 == self@[i].1
                    &&& d@[i].0.file_path == self@[i].0.file_path
                    &&& d@[i].0.id == self@[i].0.id
                    &&& picks_from(
                        d@[i].0.samples,
                        self@[i].0.samples,
                        quota_take(
                            self@,
                            i,
                            malicious_quota as nat,
                            legit_quota as nat,
                            malicious_first_share as nat,
                            legit_first_share as nat,
                        ),
                    )
                },
    {
        let ghost files = self@;
        let n = self.samples_files.len();
        // Count the files of each class.
        let mut n_malicious_files: usize = 0;
        let mut n_legitimate_files: usize = 0;
        let mut i: usize = 0;
        while i < n
            invariant
                n == self.samples_files.len(),
                files == files_view(self.samples_files@),
                0 <= i <= n,
                n_malicious_files == class_files(files.take(i as int), true),
                n_legitimate_files == class_files(files.take(i as int), false),
                n_malicious_files + n_legitimate_files == i,
            decreases n - i,
        {
            proof {
                lemma_class_files_skip(files, true, i as int);
                lemma_class_files_skip(files, false, i as int);
            }
            if self.samples_files[i].1 {
                n_malicious_files = n_malicious_files + 1;
            } else {
                n_legitimate_files = n_legitimate_files + 1;
            }
            i = i + 1;
        }
        assert(files.take(n as int) =~= files);
        let ghost mal_all = class_takes(
            files,
            true,
            malicious_quota as int,
            n_malicious_files as int,
            malicious_first_share as nat,
        );
        let ghost legit_all = class_takes(
            files,
            false,
            legit_quota as int,
            n_legitimate_files as int,
            legit_first_share as nat,
        );
        proof {
            lemma_class_takes_len(
                files,
                true,
                malicious_quota as int,
                n_malicious_files as int,
                malicious_first_share as nat,
            );
            lemma_class_takes_len(
                files,
                false,
                legit_quota as int,
                n_legitimate_files as int,
                legit_first_share as nat,
            );
        }
        let mut mal_per_file = malicious_first_share;
        let mut legit_per_file = legit_first_share;
        let mut mal_to_add = malicious_quota;
        let mut legit_to_add = legit_quota;
        let mut mal_left = n_malicious_files;
        let mut legit_left = n_legitimate_files;
        let mut reduced_samples: Vec<(WarmDatasetFileData, bool)> = Vec::new();
        assert(files.skip(0) =~= files);
        let mut i: usize = 0;
        while i < n
            invariant
                n == self.samples_files.len(),
                files == files_view(self.samples_files@),
                0 <= i <= n,
                class_files(files.skip(i as int), true) > 0 ==> mal_per_file <= mal_to_add
                    && mal_left == class_files(files.skip(i as int), true),
                class_files(files.skip(i as int), false) > 0 ==> legit_per_file <= legit_to_add
                    && legit_left == class_files(files.skip(i as int), false),
                mal_all == class_takes(
                    files,
                    true,
                    malicious_quota as int,
                    n_malicious_files as int,
                    malicious_first_share as nat,
                ),
                legit_all == class_takes(
                    files,
                    false,
                    legit_quota as int,
                    n_legitimate_files as int,
                    legit_first_share as nat,
                ),
                mal_all == mal_all.take(i as int) + class_takes(
                    files.skip(i as int),
                    true,
                    mal_to_add as int,
                    mal_left as int,
                    mal_per_file as nat,
                ),
                legit_all == legit_all.take(i as int) + class_takes(
                    files.skip(i as int),
                    false,
                    legit_to_add as int,
                    legit_left as int,
                    legit_per_file as nat,
                ),
                mal_all.len() == n,
                legit_all.len() == n,
                reduced_samples@.len() == i,
                forall|j: int|
                    0 <= j < i ==> {
                        let d = files_view(reduced_samples@)[j];
                        &&& (#[trigger] reduced_samples@[j]).1 == files[j].1
                        &&& d.0.file_path == files[j].0.file_path
                        &&& d.0.id == files[j].0.id
                        &&& picks_from(
                            d.0.samples,
                            files[j].0.samples,
                            if files[j].1 {
                                mal_all[j]
                            } else {
                                legit_all[j]
                            },
                        )
                    },
            decreases n - i,
        {
            proof {
                lemma_class_takes_len(
                    files.skip(i as int),
                    true,
                    mal_to_add as int,
                    mal_left as int,
                    mal_per_file as nat,
                );
                assert(files.skip(i as int)[0] == files[i as int]);
                assert(files.skip(i as int).drop_first() =~= files.skip(i + 1));
                let e = self.samples_files@[i as int];
                assert(files[i as int] == (e.0@, e.1));
                lemma_class_files_drop_first(files.skip(i as int), true);
                lemma_class_files_drop_first(files.skip(i as int), false);
            }
            let file_data = &self.samples_files[i].0;
            let label = self.samples_files[i].1;
            if label {
                let (reduced, _) = WarmMLDataset::select_random_data(file_data, mal_per_file, seed);
                let taken = reduced.samples_len();
                proof {
                    let rest = class_takes(
                        files.skip(i + 1),
                        true,
                        mal_to_add - taken,
                        if mal_left <= 1 {
                            mal_left as int
                        } else {
                            mal_left - 1
                        },
                        if mal_left <= 1 {
                            mal_per_file as nat
                        } else {
                            ((mal_to_add - taken) / (mal_left - 1)) as nat
                        },
                    );
                    assert(class_takes(
                        files.skip(i as int),
                        true,
                        mal_to_add as int,
                        mal_left as int,
                        mal_per_file as nat,
                    ) == seq![taken as nat] + rest);
                    assert(mal_all.take(i + 1) =~= mal_all.take(i as int).push(taken as nat));
                    assert(mal_all =~= mal_all.take(i + 1) + rest);
                    lemma_class_takes_len(
                        files.skip(i as int),
                        false,
                        legit_to_add as int,
                        legit_left as int,
                        legit_per_file as nat,
                    );
                    assert(legit_all.take(i + 1) =~= legit_all.take(i as int).push(0nat));
                    assert(legit_all =~= legit_all.take(i + 1) + class_takes(
                        files.skip(i + 1),
                        false,
                        legit_to_add as int,
                        legit_left as int,
                        legit_per_file as nat,
                    ));
                }
                mal_to_add = mal_to_add - taken;
                reduced_samples.push((reduced, true));
                if mal_left > 1 {
                    mal_left = mal_left - 1;
                    mal_per_file = mal_to_add / mal_left;
                }
            } else {
                let (reduced, _) = WarmMLDataset::select_random_data(file_data, legit_per_file, seed);
                let taken = reduced.samples_len();
                proof {
                    let rest = class_takes(
                        files.skip(i + 1),
                        false,
                        legit_to_add - taken,
                        if legit_left <= 1 {
                            legit_left as int
                        } else {
                            legit_left - 1
                        },
                        if legit_left <= 1 {
                            legit_per_file as nat
                        } else {
                            ((legit_to_add - taken) / (legit_left - 1)) as nat
                        },
                    );
                    assert(class_takes(
                        files.skip(i as int),
                        false,
                        legit_to_add as int,
                        legit_left as int,
                        legit_per_file as nat,
                    ) == seq![taken as nat] + rest);
                    assert(legit_all.take(i + 1) =~= legit_all.take(i as int).push(taken as nat));
                    assert(legit_all =~= legit_all.take(i + 1) + rest);
                    assert(mal_all.take(i + 1) =~= mal_all.take(i as int).push(0nat));
                    assert(mal_all =~= mal_all.take(i + 1) + class_takes(
                        files.skip(i + 1),
                        true,
                        mal_to_add as int,
                        mal_left as int,
                        mal_per_file as nat,
                    ));
                }
                legit_to_add = legit_to_add - taken;
                reduced_samples.push((reduced, false));
                if legit_left > 1 {
                    legit_left = legit_left - 1;
                    legit_per_file = legit_to_add / legit_left;
                }
            }
            i = i + 1;
        }
        let d = WarmMLDataset { samples_files: reduced_samples };
        d
    }
}

/// Shuffling the positions `0..n` lists each of them once.
proof fn lemma_shuffled_positions(ordered: Seq<usize>, shuffled: Seq<usize>, n: nat)
    requires
        ordered == Seq::new(n, |k: int| k as usize),
        n <= usize::MAX,
        shuffled.to_multiset() == ordered.to_multiset(),
    ensures
        is_index_permutation(shuffled, n),
{
    broadcast use vstd::seq_lib::group_to_multiset_ensures;

    assert(ordered.no_duplicates());
    ordered.lemma_multiset_has_no_duplicates();
    shuffled.to_multiset_ensures();
    ordered.to_multiset_ensures();
    assert(shuffled.len() == n);
    shuffled.lemma_multiset_has_no_duplicates_conv();
    assert forall|k: int| 0 <= k < n implies #[trigger] shuffled[k] < n by {
        assert(shuffled.contains(shuffled[k]));
        assert(shuffled.to_multiset().count(shuffled[k]) > 0);
        assert(ordered.contains(shuffled[k]));
    }
}

// ---------------------------------------------------------------------------
// Laws of a dataset
// ---------------------------------------------------------------------------
/// There are as many labels as samples: `get_samples`, `get_labels` and
/// `get_samples_len` agree on the number of samples.
pub proof fn lemma_samples_and_labels_align(files: Seq<(FileDataView, bool)>)
    ensures
        labelled_samples(files).len() == total_samples(files),
        class_samples(files, true) + class_samples(files, false) == total_samples(files),
{
    lemma_labelled_len(files);
    lemma_class_sum(files);
}

/// The sum of a sequence of numbers.
pub open spec fn sum_of(s: Seq<nat>) -> nat
    decreases s.len(),
{
    if s.len() == 0 {
        0
    } else {
        s[0] + sum_of(s.drop_first())
    }
}

proof fn lemma_class_takes_sum(
    files: Seq<(FileDataView, bool)>,
    label: bool,
    remaining: int,
    files_left: int,
    per_file: nat,
)
    requires
        class_files(files, label) > 0 ==> 0 <= per_file <= remaining && files_left == class_files(
            files,
            label,
        ),
    ensures
        sum_of(class_takes(files, label, remaining, files_left, per_file)) <= if class_files(
            files,
            label,
        ) == 0 {
            0
        } else {
            remaining
        },
    decreases files.len(),
{
    if files.len() > 0 {
        lemma_class_files_drop_first(files, label);
        let rest_files = files.drop_first();
        let take = min_nat(per_file, files[0].0.samples.len());
        let rest = remaining - take;
        let r = class_takes(files, label, remaining, files_left, per_file);
        if files[0].1 == label {
            if files_left <= 1 {
                lemma_class_takes_sum(rest_files, label, rest, files_left, per_file);
            } else {
                let share = if rest >= 0 {
                    (rest / (files_left - 1)) as nat
                } else {
                    0
                };
                assert(share <= rest) by (nonlinear_arith)
                    requires
                        rest >= 0,
                        files_left > 1,
                        share == rest / (files_left - 1),
                ;
                lemma_class_takes_sum(rest_files, label, rest, files_left - 1, share);
            }
            assert(r.drop_first() =~= class_takes(
                rest_files,
                label,
                rest,
                if files_left <= 1 {
                    files_left
                } else {
                    files_left - 1
                },
                if files_left <= 1 {
                    per_file
                } else if rest >= 0 {
                    (rest / (files_left - 1)) as nat
                } else {
                    0
                },
            ));
        } else {
            lemma_class_takes_sum(rest_files, label, remaining, files_left, per_file);
            assert(r.drop_first() =~= class_takes(
                rest_files,
                label,
                remaining,
                files_left,
                per_file,
            ));
        }
    }
}

proof fn lemma_class_samples_drop_first(files: Seq<(FileDataView, bool)>, label: bool)
    requires
        files.len() > 0,
    ensures
        class_samples(files, label) == class_samples(files.drop_first(), label) + if files[0].1
            == label {
            files[0].0.samples.len()
        } else {
            0nat
        },
    decreases files.len(),
{
    if files.len() > 1 {
        lemma_class_samples_drop_first(files.drop_last(), label);
        assert(files.drop_last().drop_first() =~= files.drop_first().drop_last());
        assert(files.drop_first().last() == files.last());
        assert(files.drop_last()[0] == files[0]);
    } else {
        assert(files.drop_first().len() == 0);
        assert(files.drop_last().len() == 0);
        assert(class_samples(files.drop_last(), label) == 0);
        assert(files.last() == files[0]);
    }
}

/// Files that each hold at least `a` samples hold, in a class, at least `a`
/// samples per file of the class.
proof fn lemma_class_samples_at_least(files: Seq<(FileDataView, bool)>, label: bool, a: nat)
    requires
        forall|k: int| 0 <= k < files.len() ==> sample_count(#[trigger] files[k]) >= a,
    ensures
        class_samples(files, label) >= class_files(files, label) * a,
    decreases files.len(),
{
    if files.len() > 0 {
        let rest = files.drop_first();
        assert forall|k: int| 0 <= k < rest.len() implies sample_count(#[trigger] rest[k]) >= a by {
            assert(rest[k] == files[k + 1]);
        }
        lemma_class_samples_at_least(rest, label, a);
        lemma_class_samples_drop_first(files, label);
        lemma_class_files_drop_first(files, label);
        assert(sample_count(files[0]) >= a);
        let c = class_files(rest, label);
        if files[0].1 == label {
            assert((c + 1) * a == c * a + a) by (nonlinear_arith);
            assert(class_files(files, label) == c + 1);
            assert(class_samples(files, label) == class_samples(rest, label)
                + files[0].0.samples.len());
        }
    } else {
        assert(class_files(files, label) == 0);
        assert(class_files(files, label) * a == 0) by (nonlinear_arith)
            requires
                class_files(files, label) == 0,
        ;
    }
}

proof fn lemma_sum_of_prepend(t: nat, rest: Seq<nat>)
    ensures
        sum_of(seq![t] + rest) == t + sum_of(rest),
{
    assert((seq![t] + rest).drop_first() =~= rest);
}

/// When the files come in order of size and each share is what remains divided
/// evenly among the files left, the files of a class give exactly what remains,
/// or all the class's samples if it has fewer.
proof fn lemma_class_takes_exact(
    files: Seq<(FileDataView, bool)>,
    label: bool,
    remaining: int,
    files_left: int,
    per_file: nat,
)
    requires
        sorted_by_sample_count(files),
        remaining >= 0,
        class_files(files, label) > 0 ==> files_left == class_files(files, label) && per_file
            == remaining / files_left,
    ensures
        sum_of(class_takes(files, label, remaining, files_left, per_file)) == if remaining
            <= class_samples(files, label) {
            remaining
        } else {
            class_samples(files, label) as int
        },
    decreases files.len(),
{
    if files.len() == 0 {
        return;
    }
    let rest_files = files.drop_first();
    assert(sorted_by_sample_count(rest_files)) by {
        assert forall|i: int, j: int| 0 <= i <= j < rest_files.len() implies sample_count(
            rest_files[i],
        ) <= sample_count(rest_files[j]) by {
            assert(rest_files[i] == files[i + 1]);
            assert(rest_files[j] == files[j + 1]);
        }
    }
    lemma_class_files_drop_first(files, label);
    lemma_class_samples_drop_first(files, label);
    if files[0].1 != label {
        lemma_class_takes_exact(rest_files, label, remaining, files_left, per_file);
        lemma_sum_of_prepend(0, class_takes(rest_files, label, remaining, files_left, per_file));
        return;
    }
    let m = files_left;
    let a1 = files[0].0.samples.len();
    let s = per_file;
    let take = min_nat(s, a1);
    let rest = remaining - take;
    assert(s <= remaining) by (nonlinear_arith)
        requires
            m >= 1,
            remaining >= 0,
            s == remaining / m,
    ;
    let c_rest = class_samples(rest_files, label);
    if m <= 1 {
        assert(class_files(rest_files, label) == 0);
        lemma_class_takes_exact(rest_files, label, rest, m, s);
        lemma_class_samples_zero(rest_files, label);
        lemma_sum_of_prepend(take, class_takes(rest_files, label, rest, m, s));
        assert(s == remaining) by (nonlinear_arith)
            requires
                m == 1,
                s == remaining / m,
        ;
    } else {
        let share = (rest / (m - 1)) as nat;
        lemma_class_takes_exact(rest_files, label, rest, m - 1, share);
        lemma_sum_of_prepend(take, class_takes(rest_files, label, rest, m - 1, share));
        if a1 >= s + 1 && rest > c_rest {
            assert forall|k: int| 0 <= k < rest_files.len() implies sample_count(
                #[trigger] rest_files[k],
            ) >= a1 by {
                assert(rest_files[k] == files[k + 1]);
                assert(sample_count(files[0]) <= sample_count(files[k + 1]));
            }
            lemma_class_samples_at_least(rest_files, label, a1);
            assert(remaining - s <= (m - 1) * (s + 1)) by (nonlinear_arith)
                requires
                    m >= 2,
                    remaining >= 0,
                    s == remaining / m,
            ;
            assert((m - 1) * (s + 1) <= (m - 1) * a1) by (nonlinear_arith)
                requires
                    m >= 2,
                    a1 >= s + 1,
            ;
            assert(false);
        }
    }
}

proof fn lemma_class_samples_zero(files: Seq<(FileDataView, bool)>, label: bool)
    requires
        class_files(files, label) == 0,
    ensures
        class_samples(files, label) == 0,
    decreases files.len(),
{
    if files.len() > 0 {
        lemma_class_samples_zero(files.drop_last(), label);
    }
}

/// On a built dataset, whose files come in order of their number of samples,
/// the files of a class together give exactly the class's quota, or all the
/// class's samples if it has fewer, when the first share is the quota divided
/// evenly among the class's files.
pub proof fn lemma_selection_meets_quota(
    files: Seq<(FileDataView, bool)>,
    label: bool,
    quota: nat,
    first_share: nat,
)
    requires
        sorted_by_sample_count(files),
        class_files(files, label) > 0 ==> first_share == quota / class_files(files, label),
    ensures
        sum_of(class_takes(files, label, quota as int, class_files(files, label) as int, first_share))
            == min_nat(quota, class_samples(files, label)),
{
    lemma_class_takes_exact(files, label, quota as int, class_files(files, label) as int, first_share);
}

/// The files of a class never give more samples together than the class's
/// quota: the shares that [`quota_take`] gives the files carrying `label` add
/// up to at most `quota` when the first share is at most the quota.
pub proof fn lemma_selection_within_quota(
    files: Seq<(FileDataView, bool)>,
    label: bool,
    quota: nat,
    first_share: nat,
)
    requires
        first_share <= quota,
    ensures
        sum_of(class_takes(files, label, quota as int, class_files(files, label) as int, first_share))
            <= quota,
{
    lemma_class_takes_sum(files, label, quota as int, class_files(files, label) as int, first_share);
}

} // verus!
