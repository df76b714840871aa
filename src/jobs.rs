use vstd::prelude::*;

verus! {

/// The extension that marks an image file as a job.
pub const IMAGE_EXTENSION: &'static str = "jpg";

/// Whether the directory entry at `path` has the extension `ext`, in the sense
/// of `Path::extension`: the file name (what follows the last `/`) holds a dot
/// that is not its first character, and what follows the last dot is `ext`.
pub open spec fn has_extension(path: Seq<char>, ext: Seq<char>) -> bool {
    let n = path.len();
    let m = ext.len();
    &&& n >= m + 2
    &&& path[n - m - 1] == '.'
    &&& path[n - m - 2] != '/'
    &&& path.subrange(n - m, n as int) == ext
    &&& forall|j: int| 0 <= j < m ==> ext[j] != '.' && ext[j] != '/'
}

/// The entries among `paths` that are jobs, in their order.
pub open spec fn matching(paths: Seq<String>, ext: Seq<char>) -> Seq<String> {
    paths.filter(|p: String| has_extension(p@, ext))
}

/// Decides `has_extension` on an entry path.
pub fn is_job_path(path: &str, ext: &str) -> (r: bool)
    ensures
        r == has_extension(path@, ext@),
{
    let n = path.unicode_len();
    let m = ext.unicode_len();
    if n < m || n - m < 2 {
        return false;
    }
    if path.get_char(n - m - 1) != '.' || path.get_char(n - m - 2) == '/' {
        return false;
    }
    let mut j: usize = 0;
    while j < m
        invariant
            j <= m,
            n >= m + 2,
            n == path@.len(),
            m == ext@.len(),
            forall|k: int| 0 <= k < j ==> path@[n - m + k] == ext@[k],
            forall|k: int| 0 <= k < j ==> ext@[k] != '.' && ext@[k] != '/',
        decreases m - j,
    {
        let c = ext.get_char(j);
        if c == '.' || c == '/' || path.get_char(n - m + j) != c {
            return false;
        }
        j = j + 1;
    }
    assert(path@.subrange(n - m, n as int) =~= ext@);
    true
}

/// The jobs among the entries of a directory: the paths with extension `ext`,
/// in the order in which the directory listed them.
pub fn select_jobs(paths: &Vec<String>, ext: &str) -> (r: Vec<String>)
    ensures
        r@ == matching(paths@, ext@),
        r@.len() <= paths@.len(),
{
    let mut r: Vec<String> = Vec::new();
    let mut i: usize = 0;
    while i < paths.len()
        invariant
            i <= paths@.len(),
            r@ == matching(paths@.subrange(0, i as int), ext@),
        decreases paths@.len() - i,
    {
        let p = paths[i].clone();
        let keep = is_job_path(p.as_str(), ext);
        proof {
            let s = paths@.subrange(0, i as int);
            assert(paths@.subrange(0, i + 1).drop_last() =~= s);
            reveal(Seq::filter);
        }
        if keep {
            r.push(p);
        }
        i = i + 1;
    }
    assert(paths@.subrange(0, paths@.len() as int) =~= paths@);
    proof {
        broadcast use vstd::seq_lib::group_filter_ensures;
    }
    r
}

/// Entries that are not jobs do not change how many jobs a directory yields,
/// wherever they stand among the others.
pub proof fn lemma_other_entries_ignored(
    before: Seq<String>,
    after: Seq<String>,
    other: String,
    ext: Seq<char>,
)
    requires
        !has_extension(other@, ext),
    ensures
        matching(before + seq![other] + after, ext) == matching(before + after, ext),
        matching(before + seq![other] + after, ext).len() == matching(before + after, ext).len(),
{
    let pred = |p: String| has_extension(p@, ext);
    Seq::filter_distributes_over_add(before + seq![other], after, pred);
    Seq::filter_distributes_over_add(before, seq![other], pred);
    Seq::filter_distributes_over_add(before, after, pred);
    reveal(Seq::filter);
    assert(seq![other].drop_last() =~= Seq::<String>::empty());
    assert(Seq::<String>::empty().filter(pred) =~= Seq::<String>::empty());
    assert(seq![other].last() == other);
    assert(!pred(other));
    assert(seq![other].filter(pred) =~= Seq::<String>::empty());
    assert(matching(before, ext) + Seq::<String>::empty() =~= matching(before, ext));
}

} // verus!
