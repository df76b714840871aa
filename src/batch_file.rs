use vstd::prelude::*;

verus! {

/// The byte that ends each line of a batch file.
pub const NEWLINE: u8 = 10;

/// The byte that may precede a newline and is then not part of the line.
pub const CARRIAGE_RETURN: u8 = 13;

/// The contents of a batch file: each job followed by a newline.
pub open spec fn rendered(jobs: Seq<Seq<u8>>) -> Seq<u8>
    decreases jobs.len(),
{
    if jobs.len() == 0 {
        Seq::empty()
    } else {
        rendered(jobs.drop_last()) + jobs.last() + seq![NEWLINE]
    }
}

/// Reading `text` from its start: the lines that a newline has ended, and
/// the line still open.
pub open spec fn scan_lines(text: Seq<u8>) -> (Seq<Seq<u8>>, Seq<u8>)
    decreases text.len(),
{
    if text.len() == 0 {
        (Seq::empty(), Seq::empty())
    } else {
        let (done, open) = scan_lines(text.drop_last());
        if text.last() == NEWLINE {
            (done.push(open), Seq::empty())
        } else {
            (done, open.push(text.last()))
        }
    }
}

/// All lines of `text`; the last one is what follows the last newline.
pub open spec fn lines_of(text: Seq<u8>) -> Seq<Seq<u8>> {
    scan_lines(text).0.push(scan_lines(text).1)
}

/// A line without the carriage return that may end it.
pub open spec fn strip_cr(line: Seq<u8>) -> Seq<u8> {
    if line.len() > 0 && line.last() == CARRIAGE_RETURN {
        line.drop_last()
    } else {
        line
    }
}

/// The job identifiers that a batch file holds: its lines without their
/// carriage returns, empty ones left out.
pub open spec fn parsed(text: Seq<u8>) -> Seq<Seq<u8>> {
    lines_of(text).map_values(|l: Seq<u8>| strip_cr(l)).filter(|l: Seq<u8>| l.len() > 0)
}

/// A job that a batch file can carry unchanged: not empty, no newline in it,
/// not ending in a carriage return.
pub open spec fn is_storable(job: Seq<u8>) -> bool {
    &&& job.len() > 0
    &&& forall|i: int| 0 <= i < job.len() ==> job[i] != NEWLINE
    &&& job.last() != CARRIAGE_RETURN
}

/// The contents of the batch file for `jobs`: each job followed by a newline.
pub fn render_batch(jobs: &Vec<Vec<u8>>) -> (r: Vec<u8>)
    ensures
        r@ == rendered(jobs@.map_values(|j: Vec<u8>| j@)),
{
    let ghost views = jobs@.map_values(|j: Vec<u8>| j@);
    let mut r: Vec<u8> = Vec::new();
    let mut i: usize = 0;
    while i < jobs.len()
        invariant
            i <= jobs@.len(),
            views == jobs@.map_values(|j: Vec<u8>| j@),
            r@ == rendered(views.subrange(0, i as int)),
        decreases jobs@.len() - i,
    {
        let job = &jobs[i];
        let mut k: usize = 0;
        let ghost before = r@;
        while k < job.len()
            invariant
                k <= job@.len(),
                r@ == before + job@.subrange(0, k as int),
            decreases job@.len() - k,
        {
            r.push(job[k]);
            assert(job@.subrange(0, k + 1) =~= job@.subrange(0, k as int).push(job@[k as int]));
            assert(before + job@.subrange(0, k + 1) =~= (before + job@.subrange(0, k as int)).push(
                job@[k as int],
            ));
            k = k + 1;
        }
        r.push(NEWLINE);
        proof {
            let s = views.subrange(0, i + 1);
            assert(s.drop_last() =~= views.subrange(0, i as int));
            assert(job@.subrange(0, job@.len() as int) =~= job@);
            assert(s.last() == job@);
        }
        i = i + 1;
    }
    assert(views.subrange(0, jobs@.len() as int) =~= views);
    r
}

/// Splits the contents of a batch file into job identifiers: one per line,
/// without a carriage return that ends it, empty lines left out.
pub fn parse_batch(text: &Vec<u8>) -> (r: Vec<Vec<u8>>)
    ensures
        r@.map_values(|l: Vec<u8>| l@) == parsed(text@),
{
    let mut lines: Vec<Vec<u8>> = Vec::new();
    let mut open: Vec<u8> = Vec::new();
    let mut i: usize = 0;
    while i < text.len()
        invariant
            i <= text@.len(),
            (lines@.map_values(|l: Vec<u8>| l@), open@) == scan_lines(text@.subrange(0, i as int)),
        decreases text@.len() - i,
    {
        let b = text[i];
        proof {
            assert(text@.subrange(0, i + 1).drop_last() =~= text@.subrange(0, i as int));
        }
        if b == NEWLINE {
            let line = open;
            lines.push(line);
            open = Vec::new();
            assert(lines@.map_values(|l: Vec<u8>| l@) =~= scan_lines(text@.subrange(0, i + 1)).0);
        } else {
            open.push(b);
        }
        i = i + 1;
    }
    lines.push(open);
    assert(text@.subrange(0, text@.len() as int) =~= text@);
    assert(lines@.map_values(|l: Vec<u8>| l@) =~= lines_of(text@));
    let ghost all = lines@.map_values(|l: Vec<u8>| l@);
    let ghost stripped = all.map_values(|l: Seq<u8>| strip_cr(l));
    let mut r: Vec<Vec<u8>> = Vec::new();
    let mut k: usize = 0;
    while k < lines.len()
        invariant
            k <= lines@.len(),
            all == lines@.map_values(|l: Vec<u8>| l@),
            stripped == all.map_values(|l: Seq<u8>| strip_cr(l)),
            r@.map_values(|l: Vec<u8>| l@) == stripped.subrange(0, k as int).filter(
                |l: Seq<u8>| l.len() > 0,
            ),
        decreases lines@.len() - k,
    {
        let mut line = lines[k].clone();
        let n = line.len();
        if n > 0 && line[n - 1] == CARRIAGE_RETURN {
            line.pop();
        }
        proof {
            assert(line@ == strip_cr(all[k as int]));
            assert(stripped.subrange(0, k + 1).drop_last() =~= stripped.subrange(0, k as int));
            reveal(Seq::filter);
        }
        let ghost before = r@;
        if line.len() > 0 {
            r.push(line);
            assert(r@.map_values(|l: Vec<u8>| l@) =~= before.map_values(|l: Vec<u8>| l@).push(
                line@,
            ));
        }
        k = k + 1;
    }
    assert(stripped.subrange(0, lines@.len() as int) =~= stripped);
    r
}

proof fn lemma_scan_append(text: Seq<u8>, job: Seq<u8>)
    requires
        forall|i: int| 0 <= i < job.len() ==> job[i] != NEWLINE,
    ensures
        scan_lines(text + job) == (scan_lines(text).0, scan_lines(text).1 + job),
    decreases job.len(),
{
    if job.len() == 0 {
        assert(text + job =~= text);
        assert(scan_lines(text).1 + job =~= scan_lines(text).1);
    } else {
        lemma_scan_append(text, job.drop_last());
        assert((text + job).drop_last() =~= text + job.drop_last());
        assert((scan_lines(text).1 + job.drop_last()).push(job.last()) =~= scan_lines(text).1
            + job);
    }
}

proof fn lemma_scan_rendered(jobs: Seq<Seq<u8>>)
    requires
        forall|k: int| 0 <= k < jobs.len() ==> is_storable(#[trigger] jobs[k]),
    ensures
        scan_lines(rendered(jobs)) == (jobs, Seq::<u8>::empty()),
    decreases jobs.len(),
{
    if jobs.len() > 0 {
        let init = jobs.drop_last();
        lemma_scan_rendered(init);
        let job = jobs.last();
        assert(is_storable(jobs[jobs.len() - 1]));
        lemma_scan_append(rendered(init), job);
        let t = rendered(init) + job;
        assert((t + seq![NEWLINE]).drop_last() =~= t);
        assert(Seq::<u8>::empty() + job =~= job);
        assert(init.push(job) =~= jobs);
    }
}

proof fn lemma_filter_keeps_nonempty(lines: Seq<Seq<u8>>)
    requires
        forall|k: int| 0 <= k < lines.len() ==> (#[trigger] lines[k]).len() > 0,
    ensures
        lines.filter(|l: Seq<u8>| l.len() > 0) == lines,
    decreases lines.len(),
{
    reveal(Seq::filter);
    if lines.len() > 0 {
        lemma_filter_keeps_nonempty(lines.drop_last());
        assert(lines.drop_last().push(lines.last()) =~= lines);
    }
}

/// Round trip: a batch file written for jobs that it can carry unchanged
/// reads back as exactly those jobs, in the same order.
pub proof fn lemma_parse_rendered(jobs: Seq<Seq<u8>>)
    requires
        forall|k: int| 0 <= k < jobs.len() ==> is_storable(#[trigger] jobs[k]),
    ensures
        parsed(rendered(jobs)) == jobs,
{
    lemma_scan_rendered(jobs);
    let lines = lines_of(rendered(jobs));
    assert(lines == jobs.push(Seq::<u8>::empty()));
    let stripped = lines.map_values(|l: Seq<u8>| strip_cr(l));
    assert(stripped =~= jobs.push(Seq::<u8>::empty())) by {
        assert forall|k: int| 0 <= k < jobs.len() implies strip_cr(#[trigger] jobs[k]) == jobs[k] by {
            assert(is_storable(jobs[k]));
        }
    }
    reveal(Seq::filter);
    assert(jobs.push(Seq::<u8>::empty()).drop_last() =~= jobs);
    assert forall|k: int| 0 <= k < jobs.len() implies (#[trigger] jobs[k]).len() > 0 by {
        assert(is_storable(jobs[k]));
    }
    lemma_filter_keeps_nonempty(jobs);
}

} // verus!
