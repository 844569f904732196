//! Validation report: the aggregated results of a run.
//!
//! `ValidationReport` owns the results of all validated files.  The
//! command-line program renders it (pretty, JSON or summary); this module
//! holds what those renderings compute.

use vstd::prelude::*;

use crate::text::decimal;
use crate::validator::FileValidationResult;

verus! {

/// Aggregated results for an entire validation run.
pub struct ValidationReport {
    /// Per-file results.
    pub results: Vec<FileValidationResult>,
    /// Container name (used in report headings).
    pub container: String,
    /// Wall-clock time the run took.
    pub duration: std::time::Duration,
}

/// Every one of the results is free of violations.
pub open spec fn all_valid(results: Seq<FileValidationResult>) -> bool {
    forall|i: int| 0 <= i < results.len() ==> (#[trigger] results[i]).violations@.len() == 0
}

/// The number of violations over the first `n` results.
pub open spec fn total(results: Seq<FileValidationResult>, n: int) -> nat
    decreases n,
{
    if n <= 0 {
        0
    } else {
        total(results, n - 1) + results[n - 1].violations@.len()
    }
}

/// The results among the first `n` that hold a violation, in order.
pub open spec fn failed(results: Seq<FileValidationResult>, n: int) -> Seq<FileValidationResult>
    decreases n,
{
    if n <= 0 {
        seq![]
    } else if results[n - 1].violations@.len() > 0 {
        failed(results, n - 1).push(results[n - 1])
    } else {
        failed(results, n - 1)
    }
}

/// The single-line summary of a run.
pub open spec fn summary_text(container: Seq<char>, files: nat, violations: nat, valid: bool) -> Seq<
    char,
> {
    "container="@ + container + " files="@ + decimal(files) + " violations="@ + decimal(violations)
        + " status="@ + if valid {
        "PASS"@
    } else {
        "FAIL"@
    }
}

impl ValidationReport {
    /// `true` when every file passed without any violations.
    pub fn is_valid(&self) -> (b: bool)
        ensures
            b == all_valid(self.results@),
    {
        let mut i: usize = 0;
        while i < self.results.len()
            invariant
                i <= self.results.len(),
                forall|j: int| 0 <= j < i ==> (#[trigger] self.results@[j]).violations@.len() == 0,
            decreases self.results.len() - i,
        {
            if !self.results[i].is_valid() {
                return false;
            }
            i = i + 1;
        }
        true
    }

    /// Total number of violations across all files.
    pub fn total_violations(&self) -> (n: usize)
        requires
            total(self.results@, self.results@.len() as int) <= usize::MAX,
        ensures
            n == total(self.results@, self.results@.len() as int),
    {
        let mut sum: usize = 0;
        let mut i: usize = 0;
        while i < self.results.len()
            invariant
                i <= self.results.len(),
                sum == total(self.results@, i as int),
                total(self.results@, self.results@.len() as int) <= usize::MAX,
            decreases self.results.len() - i,
        {
            proof {
                lemma_total_monotone(self.results@, i + 1, self.results@.len() as int);
            }
            sum = sum + self.results[i].violations.len();
            i = i + 1;
        }
        sum
    }

    /// Subset of results that contain at least one violation.
    pub fn failed_files(&self) -> (out: Vec<&FileValidationResult>)
        ensures
            out@.map_values(|r: &FileValidationResult| *r) == failed(
                self.results@,
                self.results@.len() as int,
            ),
    {
        let mut out: Vec<&FileValidationResult> = Vec::new();
        let mut i: usize = 0;
        while i < self.results.len()
            invariant
                i <= self.results.len(),
                out@.map_values(|r: &FileValidationResult| *r) == failed(self.results@, i as int),
            decreases self.results.len() - i,
        {
            let r = &self.results[i];
            if !r.is_valid() {
                let ghost prev = out@;
                out.push(r);
                proof {
                    assert(out@.map_values(|r: &FileValidationResult| *r) =~= prev.map_values(
                        |r: &FileValidationResult| *r,
                    ).push(*r));
                }
            }
            i = i + 1;
        }
        out
    }

    /// The single-line summary of the run (suitable for scripts):
    /// `container=<c> files=<n> violations=<n> status=PASS|FAIL`.
    pub fn summary_line(&self) -> (s: String)
        requires
            total(self.results@, self.results@.len() as int) <= usize::MAX,
        ensures
            s@ == summary_text(
                self.container@,
                self.results@.len(),
                total(self.results@, self.results@.len() as int),
                all_valid(self.results@),
            ),
    {
        let mut s = String::from_str("container=");
        s.append(self.container.as_str());
        s.append(" files=");
        let files = crate::text::decimal_string(self.results.len());
        s.append(files.as_str());
        s.append(" violations=");
        let violations = crate::text::decimal_string(self.total_violations());
        s.append(violations.as_str());
        s.append(" status=");
        if self.is_valid() {
            s.append("PASS");
        } else {
            s.append("FAIL");
        }
        s
    }
}

proof fn lemma_total_monotone(results: Seq<FileValidationResult>, m: int, n: int)
    requires
        0 <= m <= n,
    ensures
        total(results, m) <= total(results, n),
    decreases n - m,
{
    if m < n {
        lemma_total_monotone(results, m, n - 1);
    }
}

// ---------------------------------------------------------------------------
// Laws
// ---------------------------------------------------------------------------

/// A run is valid exactly when it found no violation at all.
pub proof fn law_valid_iff_no_violations(results: Seq<FileValidationResult>)
    ensures
        all_valid(results) <==> total(results, results.len() as int) == 0,
{
    lemma_total_zero(results, results.len() as int);
}

proof fn lemma_total_zero(results: Seq<FileValidationResult>, n: int)
    requires
        0 <= n <= results.len(),
    ensures
        total(results, n) == 0 <==> forall|i: int|
            0 <= i < n ==> (#[trigger] results[i]).violations@.len() == 0,
    decreases n,
{
    if n > 0 {
        lemma_total_zero(results, n - 1);
    }
}

/// The failed files are the files with a violation: there are none exactly
/// when the run is valid, and they hold every violation of the run.
pub proof fn law_failed_files(results: Seq<FileValidationResult>)
    ensures
        failed(results, results.len() as int).len() == 0 <==> all_valid(results),
        total(results, results.len() as int) == total(
            failed(results, results.len() as int),
            failed(results, results.len() as int).len() as int,
        ),
        forall|i: int|
            0 <= i < failed(results, results.len() as int).len() ==> (#[trigger] failed(
                results,
                results.len() as int,
            )[i]).violations@.len() > 0,
{
    lemma_failed(results, results.len() as int);
}

proof fn lemma_failed(results: Seq<FileValidationResult>, n: int)
    requires
        0 <= n <= results.len(),
    ensures
        failed(results, n).len() == 0 <==> forall|i: int|
            0 <= i < n ==> (#[trigger] results[i]).violations@.len() == 0,
        total(results, n) == total(failed(results, n), failed(results, n).len() as int),
        forall|i: int|
            0 <= i < failed(results, n).len() ==> (#[trigger] failed(results, n)[i]).violations@.len()
                > 0,
    decreases n,
{
    if n > 0 {
        lemma_failed(results, n - 1);
        let f = failed(results, n - 1);
        if results[n - 1].violations@.len() > 0 {
            let g = f.push(results[n - 1]);
            lemma_total_prefix(g, f.len() as int, f);
        }
    }
}

proof fn lemma_total_prefix(
    g: Seq<FileValidationResult>,
    m: int,
    f: Seq<FileValidationResult>,
)
    requires
        0 <= m <= f.len(),
        f.len() <= g.len(),
        forall|i: int| 0 <= i < f.len() ==> g[i] == f[i],
    ensures
        total(g, m) == total(f, m),
    decreases m,
{
    if m > 0 {
        lemma_total_prefix(g, m - 1, f);
    }
}

/// The number of violations of a run adds up over its files: the count of
/// two lists of results run one after the other is the sum of their
/// counts, and a single file counts its own violations.
pub proof fn law_total_adds_up(a: Seq<FileValidationResult>, b: Seq<FileValidationResult>)
    ensures
        total(a + b, (a + b).len() as int) == total(a, a.len() as int) + total(b, b.len() as int),
        forall|r: FileValidationResult| #[trigger] total(seq![r], 1) == r.violations@.len(),
    decreases b.len(),
{
    let ab = a + b;
    if b.len() == 0 {
        assert(ab =~= a);
    } else {
        law_total_adds_up(a, b.drop_last());
        assert(ab.drop_last() =~= a + b.drop_last());
        lemma_total_prefix(ab, ab.len() - 1, ab.drop_last());
        lemma_total_prefix(b, b.len() - 1, b.drop_last());
        assert(ab[ab.len() - 1] == b[b.len() - 1]);
    }
    assert forall|r: FileValidationResult| #[trigger] total(seq![r], 1) == r.violations@.len() by {
        assert(total(seq![r], 0) == 0);
    }
}

/// The failed files are the results with a violation, in the run's order
/// and with none left out.
pub proof fn law_failed_files_in_order(results: Seq<FileValidationResult>)
    ensures
        failed(results, results.len() as int) == results.filter(
            |r: FileValidationResult| r.violations@.len() > 0,
        ),
{
    lemma_failed_filter(results, results.len() as int);
    assert(results.take(results.len() as int) =~= results);
}

proof fn lemma_failed_filter(results: Seq<FileValidationResult>, n: int)
    requires
        0 <= n <= results.len(),
    ensures
        failed(results, n) == results.take(n).filter(|r: FileValidationResult| r.violations@.len() > 0),
    decreases n,
{
    reveal(Seq::filter);
    if n > 0 {
        lemma_failed_filter(results, n - 1);
        assert(results.take(n).drop_last() =~= results.take(n - 1));
        assert(results.take(n).last() == results[n - 1]);
    } else {
        assert(results.take(0) =~= Seq::<FileValidationResult>::empty());
    }
}

} // verus!
