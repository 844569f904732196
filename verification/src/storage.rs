//! Selecting the CSV files of a folder listing.
//!
//! Listing a folder of the storage account is left to the caller; this
//! module keeps the files whose name matches a glob (applied to the file
//! name only) and orders them by path.

use vstd::prelude::*;

use crate::error::AppError;
use crate::text::{chars_of, string_views};

verus! {

broadcast use vstd::seq_lib::group_to_multiset_ensures;

#[verifier::external_type_specification]
#[verifier::external_body]
pub struct ExGlobSet(globset::GlobSet);

/// What compiling the glob `pattern` reports: `None` when both
/// `globset::Glob::new(pattern)` and `GlobSetBuilder::build` on a set of that
/// one glob succeed, otherwise the text (`Display`) of the first
/// `globset::Error` (a bad glob, or a regex the glob cannot be turned into).
pub uninterp spec fn glob_compile_error(pattern: Seq<char>) -> Option<Seq<char>>;

/// Whether the set holding the one glob `pattern` matches `name`
/// (`globset::GlobSet::is_match`).
pub uninterp spec fn glob_is_match(pattern: Seq<char>, name: Seq<char>) -> bool;

/// The longest glob, in characters, that the library compiles.  A longer
/// literal part could exceed the size limit of the literal matcher
/// `globset` builds, which it unwraps.
pub const MAX_GLOB_CHARS: usize = 0x0fff_ffff;

/// A compiled filename glob together with its pattern.
///
/// The fields are private and `compile` is the only way to build one, so
/// `set` is always the compilation of `source`.
pub struct FilePattern {
    source: String,
    set: globset::GlobSet,
}

impl FilePattern {
    /// The glob this matcher was compiled from.
    pub closed spec fn pattern(&self) -> Seq<char> {
        self.source@
    }

    /// Compiles `pattern` with `globset::Glob::new` and then
    /// `globset::GlobSetBuilder::new().add(glob).build()`, which reports a
    /// regex that cannot be built as an error.
    ///
    /// Trusted: the result is `Ok` exactly when `glob_compile_error` says the
    /// glob compiles, and an error carries the `Display` text of
    /// `globset::Error`.
    #[verifier::external_body]
    fn compile(pattern: &str) -> (r: Result<FilePattern, String>)
        requires
            pattern@.len() <= MAX_GLOB_CHARS,
        ensures
            match r {
                Ok(p) => glob_compile_error(pattern@) is None && p.pattern() == pattern@,
                Err(e) => glob_compile_error(pattern@) == Some(e@),
            },
    {
        let built = match globset::Glob::new(pattern) {
            Ok(glob) => globset::GlobSetBuilder::new().add(glob).build(),
            Err(e) => Err(e),
        };
        match built {
            Ok(set) => Ok(FilePattern { source: pattern.to_string(), set }),
            Err(e) => Err(e.to_string()),
        }
    }

    /// Whether the glob matches `name` (`globset::GlobSet::is_match`).
    ///
    /// Trusted: the answer is `glob_is_match` of the source glob and the name.
    #[verifier::external_body]
    fn is_match(&self, name: &str) -> (b: bool)
        ensures
            b == glob_is_match(self.pattern(), name@),
    {
        self.set.is_match(name)
    }

    /// The paths of `paths` whose file name matches the glob, sorted.
    ///
    /// The glob applies to the file name only (the text after the last `/`).
    pub fn matching_files(&self, paths: Vec<String>) -> (out: Vec<String>)
        ensures
            sorted(string_views(out@)),
            string_views(out@).to_multiset() == matching(
                string_views(paths@),
                self.pattern(),
                paths@.len() as int,
            ).to_multiset(),
    {
        let ghost pv = string_views(paths@);
        let mut out: Vec<String> = Vec::new();
        let mut i: usize = 0;
        while i < paths.len()
            invariant
                i <= paths.len(),
                pv == string_views(paths@),
                sorted(string_views(out@)),
                string_views(out@).to_multiset() == matching(pv, self.pattern(), i as int).to_multiset(),
            decreases paths.len() - i,
        {
            let path = &paths[i];
            let name = file_name(path.as_str());
            if self.is_match(name) {
                insert_sorted(&mut out, path.clone());
            }
            i = i + 1;
        }
        out
    }
}

/// Build the matcher for a filename glob.
///
/// Returns `AppError::Rule` for an invalid glob pattern.
pub fn build_glob_matcher(pattern: &str) -> (r: Result<FilePattern, AppError>)
    requires
        pattern@.len() <= MAX_GLOB_CHARS,
    ensures
        match glob_compile_error(pattern@) {
            None => r matches Ok(p) && p.pattern() == pattern@,
            Some(e) => r matches Err(AppError::Rule(m)) && m@ == "Invalid file pattern '"@
                + pattern@ + "': "@ + e,
        },
{
    match FilePattern::compile(pattern) {
        Ok(p) => Ok(p),
        Err(e) => {
            let mut m = String::from_str("Invalid file pattern '");
            m.append(pattern);
            m.append("': ");
            m.append(e.as_str());
            Err(AppError::Rule(m))
        },
    }
}

/// The text after the last `/` of a path (all of it when there is none).
pub open spec fn last_segment(path: Seq<char>) -> Seq<char>
    decreases path.len(),
{
    if path.len() == 0 {
        path
    } else if path.last() == '/' {
        seq![]
    } else {
        last_segment(path.drop_last()).push(path.last())
    }
}

/// The file name of a path: the text after its last `/`
/// (`path.rsplit('/').next()`).
pub fn file_name(path: &str) -> (name: &str)
    ensures
        name@ == last_segment(path@),
{
    let chars = chars_of(path);
    let n = chars.len();
    let mut start: usize = n;
    assert(path@.subrange(0, n as int) =~= path@);
    assert(path@.subrange(n as int, n as int) =~= Seq::<char>::empty());
    while start > 0 && chars[start - 1] != '/'
        invariant
            start <= n,
            n == chars.len(),
            chars@ == path@,
            last_segment(path@) == last_segment(path@.subrange(0, start as int)) + path@.subrange(
                start as int,
                n as int,
            ),
        decreases start,
    {
        proof {
            let p = path@.subrange(0, start as int);
            assert(p.drop_last() =~= path@.subrange(0, start - 1));
            assert(p.last() == chars@[start - 1]);
            assert(path@.subrange(start - 1, n as int) =~= seq![chars@[start - 1]]
                + path@.subrange(start as int, n as int));
        }
        start = start - 1;
    }
    proof {
        let p = path@.subrange(0, start as int);
        if start > 0 {
            assert(p.last() == chars@[start - 1]);
        }
        assert(last_segment(p) =~= seq![]);
    }
    path.substring_char(start, n)
}

/// The paths among the first `n` of `paths` whose file name matches the
/// glob `pattern`, in order.
pub open spec fn matching(paths: Seq<Seq<char>>, pattern: Seq<char>, n: int) -> Seq<Seq<char>>
    decreases n,
{
    if n <= 0 {
        seq![]
    } else {
        let rest = matching(paths, pattern, n - 1);
        if glob_is_match(pattern, last_segment(paths[n - 1])) {
            rest.push(paths[n - 1])
        } else {
            rest
        }
    }
}

/// `a` sorts before or with `b` in the order of `String`: character by
/// character, a proper prefix first.
pub open spec fn text_le(a: Seq<char>, b: Seq<char>) -> bool
    decreases a.len(),
{
    if a.len() == 0 {
        true
    } else if b.len() == 0 {
        false
    } else if a[0] != b[0] {
        a[0] < b[0]
    } else {
        text_le(a.drop_first(), b.drop_first())
    }
}

/// The texts are in ascending order.
pub open spec fn sorted(s: Seq<Seq<char>>) -> bool {
    forall|i: int, j: int| 0 <= i < j < s.len() ==> text_le(#[trigger] s[i], #[trigger] s[j])
}

/// Any two texts are ordered one way or the other.
pub proof fn lemma_text_le_total(a: Seq<char>, b: Seq<char>)
    ensures
        text_le(a, b) || text_le(b, a),
    decreases a.len(),
{
    if a.len() > 0 && b.len() > 0 && a[0] == b[0] {
        lemma_text_le_total(a.drop_first(), b.drop_first());
    }
}

/// The order of texts is transitive.
pub proof fn lemma_text_le_transitive(a: Seq<char>, b: Seq<char>, c: Seq<char>)
    requires
        text_le(a, b),
        text_le(b, c),
    ensures
        text_le(a, c),
    decreases a.len(),
{
    if a.len() > 0 && b.len() > 0 && c.len() > 0 && a[0] == b[0] && b[0] == c[0] {
        lemma_text_le_transitive(a.drop_first(), b.drop_first(), c.drop_first());
    }
}

/// Texts that sort with each other are equal.
pub proof fn lemma_text_le_antisymmetric(a: Seq<char>, b: Seq<char>)
    requires
        text_le(a, b),
        text_le(b, a),
    ensures
        a == b,
    decreases a.len(),
{
    if a.len() > 0 && b.len() > 0 {
        lemma_text_le_antisymmetric(a.drop_first(), b.drop_first());
        assert(a =~= seq![a[0]] + a.drop_first());
        assert(b =~= seq![b[0]] + b.drop_first());
    } else {
        assert(a =~= b);
    }
}

/// Whether `a` sorts before or with `b`.
fn text_le_exec(a: &str, b: &str) -> (r: bool)
    ensures
        r == text_le(a@, b@),
{
    let ac = chars_of(a);
    let bc = chars_of(b);
    let mut i: usize = 0;
    assert(a@.skip(0) =~= a@);
    assert(b@.skip(0) =~= b@);
    while i < ac.len() && i < bc.len() && ac[i] == bc[i]
        invariant
            ac@ == a@,
            bc@ == b@,
            i <= ac.len(),
            i <= bc.len(),
            text_le(a@, b@) == text_le(a@.skip(i as int), b@.skip(i as int)),
        decreases ac.len() - i,
    {
        proof {
            let sa = a@.skip(i as int);
            let sb = b@.skip(i as int);
            assert(sa.drop_first() =~= a@.skip(i + 1));
            assert(sb.drop_first() =~= b@.skip(i + 1));
            assert(sa[0] == ac@[i as int]);
            assert(sb[0] == bc@[i as int]);
        }
        i = i + 1;
    }
    proof {
        let sa = a@.skip(i as int);
        let sb = b@.skip(i as int);
        if i < ac.len() {
            assert(sa[0] == ac@[i as int]);
        }
        if i < bc.len() {
            assert(sb[0] == bc@[i as int]);
        }
    }
    if i == ac.len() {
        true
    } else if i == bc.len() {
        false
    } else {
        ac[i] < bc[i]
    }
}

/// Insert `x` into the sorted `out`, after every text that sorts with or
/// before it.
fn insert_sorted(out: &mut Vec<String>, x: String)
    requires
        sorted(string_views(old(out)@)),
    ensures
        sorted(string_views(final(out)@)),
        string_views(final(out)@).to_multiset() == string_views(old(out)@).to_multiset().insert(
            x@,
        ),
{
    let ghost before = string_views(out@);
    let mut p: usize = 0;
    while p < out.len() && text_le_exec(out[p].as_str(), x.as_str())
        invariant
            p <= out.len(),
            before == string_views(out@),
            forall|q: int| 0 <= q < p ==> text_le(#[trigger] before[q], x@),
        decreases out.len() - p,
    {
        p = p + 1;
    }
    proof {
        if p < out.len() {
            lemma_text_le_total(before[p as int], x@);
        }
    }
    out.insert(p, x);
    proof {
        let after = string_views(out@);
        assert(after =~= before.insert(p as int, x@));
        assert forall|i: int, j: int| 0 <= i < j < after.len() implies text_le(
            #[trigger] after[i],
            #[trigger] after[j],
        ) by {
            if j < p {
                assert(text_le(before[i], before[j]));
            } else if j == p {
                assert(text_le(before[i], x@));
            } else if i < p {
                assert(text_le(before[i], x@));
                assert(text_le(x@, before[p as int]));
                if p < j - 1 {
                    assert(text_le(before[p as int], before[j - 1]));
                    lemma_text_le_transitive(x@, before[p as int], before[j - 1]);
                }
                lemma_text_le_transitive(before[i], x@, before[j - 1]);
            } else if i == p {
                assert(text_le(x@, before[p as int]));
                if p < j - 1 {
                    assert(text_le(before[p as int], before[j - 1]));
                    lemma_text_le_transitive(x@, before[p as int], before[j - 1]);
                }
            } else {
                assert(text_le(before[i - 1], before[j - 1]));
            }
        }
    }
}

// ---------------------------------------------------------------------------
// Laws
// ---------------------------------------------------------------------------

proof fn lemma_sorted_drop_first(a: Seq<Seq<char>>)
    requires
        sorted(a),
        a.len() > 0,
    ensures
        sorted(a.drop_first()),
{
    assert forall|i: int, j: int| 0 <= i < j < a.drop_first().len() implies text_le(
        #[trigger] a.drop_first()[i],
        #[trigger] a.drop_first()[j],
    ) by {
        assert(text_le(a[i + 1], a[j + 1]));
    }
}

/// A sorted list is determined by its elements: two sorted lists holding
/// the same texts, counted with repetition, are equal.
pub proof fn law_sorted_unique(a: Seq<Seq<char>>, b: Seq<Seq<char>>)
    requires
        sorted(a),
        sorted(b),
        a.to_multiset() == b.to_multiset(),
    ensures
        a == b,
    decreases a.len(),
{
    broadcast use vstd::seq_lib::group_to_multiset_ensures;

    vstd::seq_lib::to_multiset_len(a);
    vstd::seq_lib::to_multiset_len(b);
    if a.len() == 0 {
        assert(a =~= b);
    } else {
        vstd::seq_lib::to_multiset_contains(a, a[0]);
        vstd::seq_lib::to_multiset_contains(b, a[0]);
        vstd::seq_lib::to_multiset_contains(b, b[0]);
        vstd::seq_lib::to_multiset_contains(a, b[0]);
        assert(a.contains(a[0]));
        assert(b.contains(b[0]));
        let k = choose|k: int| 0 <= k < b.len() && b[k] == a[0];
        if k > 0 {
            assert(text_le(b[0], b[k]));
        } else {
            lemma_text_le_total(b[0], b[0]);
        }
        let l = choose|l: int| 0 <= l < a.len() && a[l] == b[0];
        if l > 0 {
            assert(text_le(a[0], a[l]));
        } else {
            lemma_text_le_total(a[0], a[0]);
        }
        lemma_text_le_antisymmetric(a[0], b[0]);
        vstd::seq_lib::to_multiset_remove(a, 0);
        vstd::seq_lib::to_multiset_remove(b, 0);
        assert(a.remove(0) =~= a.drop_first());
        assert(b.remove(0) =~= b.drop_first());
        lemma_sorted_drop_first(a);
        lemma_sorted_drop_first(b);
        law_sorted_unique(a.drop_first(), b.drop_first());
        assert(a =~= b) by {
            assert forall|i: int| 0 <= i < a.len() implies a[i] == b[i] by {
                if i > 0 {
                    assert(a[i] == a.drop_first()[i - 1]);
                    assert(b[i] == b.drop_first()[i - 1]);
                }
            }
        }
    }
}

proof fn lemma_matching_count(paths: Seq<Seq<char>>, pattern: Seq<char>, n: int, x: Seq<char>)
    requires
        0 <= n <= paths.len(),
    ensures
        matching(paths, pattern, n).to_multiset().count(x) == if glob_is_match(
            pattern,
            last_segment(x),
        ) {
            paths.take(n).to_multiset().count(x)
        } else {
            0
        },
    decreases n,
{
    broadcast use vstd::seq_lib::group_to_multiset_ensures;

    if n == 0 {
        assert(paths.take(0) =~= Seq::<Seq<char>>::empty());
    } else {
        lemma_matching_count(paths, pattern, n - 1, x);
        assert(paths.take(n) =~= paths.take(n - 1).push(paths[n - 1]));
    }
}

/// The order of a folder listing does not matter: two listings holding the
/// same paths select the same files, in the same order.
pub proof fn law_listing_order_irrelevant(
    pattern: Seq<char>,
    listing1: Seq<Seq<char>>,
    listing2: Seq<Seq<char>>,
    selected1: Seq<Seq<char>>,
    selected2: Seq<Seq<char>>,
)
    requires
        listing1.to_multiset() == listing2.to_multiset(),
        sorted(selected1),
        selected1.to_multiset() == matching(listing1, pattern, listing1.len() as int).to_multiset(),
        sorted(selected2),
        selected2.to_multiset() == matching(listing2, pattern, listing2.len() as int).to_multiset(),
    ensures
        selected1 == selected2,
{
    assert(listing1.take(listing1.len() as int) =~= listing1);
    assert(listing2.take(listing2.len() as int) =~= listing2);
    assert forall|x: Seq<char>| #[trigger] selected1.to_multiset().count(x)
        == selected2.to_multiset().count(x) by {
        lemma_matching_count(listing1, pattern, listing1.len() as int, x);
        lemma_matching_count(listing2, pattern, listing2.len() as int, x);
    }
    assert(selected1.to_multiset() =~= selected2.to_multiset());
    law_sorted_unique(selected1, selected2);
}

proof fn lemma_matching_filter(paths: Seq<Seq<char>>, pattern: Seq<char>, n: int)
    requires
        0 <= n <= paths.len(),
    ensures
        matching(paths, pattern, n) == paths.take(n).filter(
            |p: Seq<char>| glob_is_match(pattern, last_segment(p)),
        ),
    decreases n,
{
    reveal(Seq::filter);
    if n > 0 {
        lemma_matching_filter(paths, pattern, n - 1);
        assert(paths.take(n).drop_last() =~= paths.take(n - 1));
        assert(paths.take(n).last() == paths[n - 1]);
    } else {
        assert(paths.take(0) =~= Seq::<Seq<char>>::empty());
    }
}

/// The files chosen from a listing are the listed paths whose file name
/// the glob matches, each as often as it is listed.
pub proof fn law_matching_keeps_matching_names(paths: Seq<Seq<char>>, pattern: Seq<char>)
    ensures
        matching(paths, pattern, paths.len() as int) == paths.filter(
            |p: Seq<char>| glob_is_match(pattern, last_segment(p)),
        ),
{
    lemma_matching_filter(paths, pattern, paths.len() as int);
    assert(paths.take(paths.len() as int) =~= paths);
}

/// The file name of a path is the part after its last `/`: a suffix of the
/// path that holds no `/`, and either the whole path or preceded by `/`.
pub proof fn law_file_name_after_last_slash(path: Seq<char>)
    ensures
        ({
            let name = last_segment(path);
            let start = path.len() - name.len();
            &&& name.len() <= path.len()
            &&& path.subrange(start, path.len() as int) == name
            &&& forall|i: int| 0 <= i < name.len() ==> #[trigger] name[i] != '/'
            &&& start == 0 || path[start - 1] == '/'
        }),
    decreases path.len(),
{
    if path.len() > 0 {
        let rest = path.drop_last();
        law_file_name_after_last_slash(rest);
        if path.last() == '/' {
            assert(path.subrange(path.len() as int, path.len() as int) =~= last_segment(path));
        } else {
            let name = last_segment(path);
            let rname = last_segment(rest);
            assert(name == rname.push(path.last()));
            let start = path.len() - name.len();
            assert(rest.subrange(start, rest.len() as int) == rname);
            assert(path.subrange(start, path.len() as int) =~= rname.push(path.last()));
            assert forall|i: int| 0 <= i < name.len() implies #[trigger] name[i] != '/' by {
                if i < rname.len() {
                    assert(name[i] == rname[i]);
                }
            }
            if start > 0 {
                assert(path[start - 1] == rest[start - 1]);
            }
        }
    } else {
        assert(path.subrange(0, 0) =~= last_segment(path));
    }
}

/// Paths sort as `String`s do: the first differing character decides, and
/// a proper prefix sorts first.
pub proof fn law_text_order_is_lexicographic(a: Seq<char>, b: Seq<char>, i: int)
    requires
        0 <= i <= a.len(),
        i <= b.len(),
        a.subrange(0, i) == b.subrange(0, i),
    ensures
        i < a.len() && i < b.len() && a[i] < b[i] ==> text_le(a, b) && !text_le(b, a),
        i == a.len() && i < b.len() ==> text_le(a, b) && !text_le(b, a),
    decreases i,
{
    if i > 0 {
        assert(a[0] == a.subrange(0, i)[0]);
        assert(b[0] == b.subrange(0, i)[0]);
        assert(a.drop_first().subrange(0, i - 1) =~= a.subrange(0, i).drop_first());
        assert(b.drop_first().subrange(0, i - 1) =~= b.subrange(0, i).drop_first());
        law_text_order_is_lexicographic(a.drop_first(), b.drop_first(), i - 1);
    }
}

} // verus!
