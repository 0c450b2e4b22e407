//! Expanding jobset specifications, job names and system names into the
//! deduplicated, lexicographically sorted list of concrete jobs to monitor.
//!
//! A jobset specification reads `project:jobset:prefix`; the second and
//! third components default to the empty string.  Every (jobset, job,
//! system) combination yields the pair (`project/jobset`,
//! `prefix` + job + `.` + system).

use vstd::prelude::*;

verus! {

/// The position of the first `:` at or after `i`, if any.
pub open spec fn spec_find_colon(s: Seq<char>, i: int) -> Option<int>
    decreases s.len() - i,
{
    if i < 0 || i >= s.len() {
        None
    } else if s[i] == ':' {
        Some(i)
    } else {
        spec_find_colon(s, i + 1)
    }
}

/// Split at the first `:`: the part before it and the part after it.
/// Without a `:` the whole string is the first part.
pub open spec fn spec_split_first_colon(s: Seq<char>) -> (Seq<char>, Seq<char>) {
    match spec_find_colon(s, 0) {
        Some(i) => (s.subrange(0, i), s.subrange(i + 1, s.len() as int)),
        None => (s, Seq::empty()),
    }
}

/// The (project, jobset, prefix) components of a jobset specification.
pub open spec fn spec_jobset_parts(s: Seq<char>) -> (Seq<char>, Seq<char>, Seq<char>) {
    let first = spec_split_first_colon(s);
    let second = spec_split_first_colon(first.1);
    (first.0, second.0, second.1)
}

/// The (jobset path, job name) pair that one jobset specification, one
/// job and one system expand to.
pub open spec fn spec_expanded(spec_s: Seq<char>, job: Seq<char>, system: Seq<char>) -> (
    Seq<char>,
    Seq<char>,
) {
    let parts = spec_jobset_parts(spec_s);
    (parts.0 + "/"@ + parts.1, parts.2 + job + "."@ + system)
}

/// Every pair some combination expands to.
pub open spec fn spec_expansion(
    jobsets: Seq<Seq<char>>,
    jobs: Seq<Seq<char>>,
    systems: Seq<Seq<char>>,
) -> Set<(Seq<char>, Seq<char>)> {
    Set::new(
        |p: (Seq<char>, Seq<char>)|
            exists|x: int, y: int, z: int|
                0 <= x < jobsets.len() && 0 <= y < jobs.len() && 0 <= z < systems.len() && p
                    == spec_expanded(jobsets[x], jobs[y], systems[z]),
    )
}

/// Lexicographic order on character sequences, read from position `i` on.
pub open spec fn spec_str_lt_from(a: Seq<char>, b: Seq<char>, i: int) -> bool
    decreases a.len() - i,
{
    if i < 0 || i >= b.len() {
        false
    } else if i >= a.len() {
        true
    } else if a[i] != b[i] {
        a[i] < b[i]
    } else {
        spec_str_lt_from(a, b, i + 1)
    }
}

/// Strict lexicographic order on character sequences.
pub open spec fn spec_str_lt(a: Seq<char>, b: Seq<char>) -> bool {
    spec_str_lt_from(a, b, 0)
}

/// Strict lexicographic order on (jobset path, job name) pairs.
pub open spec fn spec_pair_lt(p: (Seq<char>, Seq<char>), q: (Seq<char>, Seq<char>)) -> bool {
    spec_str_lt(p.0, q.0) || (p.0 == q.0 && spec_str_lt(p.1, q.1))
}

/// The views of a sequence of strings.
pub open spec fn views_of(s: Seq<String>) -> Seq<Seq<char>> {
    s.map_values(|x: String| x@)
}

/// The views of a sequence of string pairs.
pub open spec fn pair_views(s: Seq<(String, String)>) -> Seq<(Seq<char>, Seq<char>)> {
    s.map_values(|p: (String, String)| (p.0@, p.1@))
}

/// Strictly increasing in pair order: sorted, with no duplicates.
pub open spec fn sorted_unique(s: Seq<(Seq<char>, Seq<char>)>) -> bool {
    forall|k1: int, k2: int| 0 <= k1 < k2 < s.len() ==> spec_pair_lt(s[k1], s[k2])
}

proof fn lemma_str_lt_from_irrefl(a: Seq<char>, i: int)
    ensures
        !spec_str_lt_from(a, a, i),
    decreases a.len() - i,
{
    if 0 <= i && i < a.len() {
        lemma_str_lt_from_irrefl(a, i + 1);
    }
}

proof fn lemma_str_lt_from_trans(a: Seq<char>, b: Seq<char>, c: Seq<char>, i: int)
    requires
        0 <= i,
        spec_str_lt_from(a, b, i),
        spec_str_lt_from(b, c, i),
    ensures
        spec_str_lt_from(a, c, i),
    decreases a.len() - i,
{
    if i < a.len() && i < b.len() && a[i] == b[i] && i < c.len() && b[i] == c[i] {
        lemma_str_lt_from_trans(a, b, c, i + 1);
    }
}

/// Two sequences neither of which is below the other agree from `i` on.
proof fn lemma_str_lt_from_total(a: Seq<char>, b: Seq<char>, i: int)
    requires
        0 <= i <= a.len(),
        i <= b.len(),
        !spec_str_lt_from(a, b, i),
        !spec_str_lt_from(b, a, i),
    ensures
        a.len() == b.len(),
        forall|j: int| i <= j < a.len() ==> a[j] == b[j],
    decreases a.len() - i,
{
    if i < a.len() && i < b.len() {
        if a[i] == b[i] {
            lemma_str_lt_from_total(a, b, i + 1);
        }
    }
}

proof fn lemma_pair_lt_trans(
    p: (Seq<char>, Seq<char>),
    q: (Seq<char>, Seq<char>),
    r: (Seq<char>, Seq<char>),
)
    requires
        spec_pair_lt(p, q),
        spec_pair_lt(q, r),
    ensures
        spec_pair_lt(p, r),
{
    if spec_str_lt(p.0, q.0) && spec_str_lt(q.0, r.0) {
        lemma_str_lt_from_trans(p.0, q.0, r.0, 0);
    } else if p.0 == q.0 && q.0 == r.0 {
        lemma_str_lt_from_trans(p.1, q.1, r.1, 0);
    }
}

/// The index of the first `:` in `s`, if any.
fn find_colon(s: &str) -> (r: Option<usize>)
    ensures
        match r {
            Some(i) => spec_find_colon(s@, 0) == Some(i as int) && i < s@.len() && s@[i as int]
                == ':',
            None => spec_find_colon(s@, 0) is None,
        },
{
    let n = s.unicode_len();
    let mut i: usize = 0;
    while i < n
        invariant
            n == s@.len(),
            i <= n,
            spec_find_colon(s@, 0) == spec_find_colon(s@, i as int),
        decreases n - i,
    {
        if s.get_char(i) == ':' {
            return Some(i);
        }
        proof {
            assert(spec_find_colon(s@, i as int) == spec_find_colon(s@, i + 1));
        }
        i = i + 1;
    }
    None
}

/// Parse a jobset specification into its (project, jobset, prefix)
/// components, missing components defaulting to the empty string.
pub fn parse_jobset_spec(s: &str) -> (r: (String, String, String))
    ensures
        r.0@ == spec_jobset_parts(s@).0,
        r.1@ == spec_jobset_parts(s@).1,
        r.2@ == spec_jobset_parts(s@).2,
{
    let n = s.unicode_len();
    match find_colon(s) {
        None => (s.to_owned(), String::new(), String::new()),
        Some(i) => {
            let project = s.substring_char(0, i).to_owned();
            let rest = s.substring_char(i + 1, n);
            let rn = rest.unicode_len();
            match find_colon(rest) {
                None => (project, rest.to_owned(), String::new()),
                Some(j) => {
                    let jobset = rest.substring_char(0, j).to_owned();
                    let prefix = rest.substring_char(j + 1, rn).to_owned();
                    (project, jobset, prefix)
                },
            }
        },
    }
}

/// Whether `a` comes strictly before `b` in lexicographic order.
fn str_lt(a: &str, b: &str) -> (r: bool)
    ensures
        r == spec_str_lt(a@, b@),
{
    let an = a.unicode_len();
    let bn = b.unicode_len();
    let mut i: usize = 0;
    loop
        invariant
            an == a@.len(),
            bn == b@.len(),
            i <= an,
            i <= bn,
            spec_str_lt(a@, b@) == spec_str_lt_from(a@, b@, i as int),
        decreases an - i,
    {
        if i >= bn {
            return false;
        }
        if i >= an {
            return true;
        }
        let ca = a.get_char(i);
        let cb = b.get_char(i);
        if ca != cb {
            return ca < cb;
        }
        proof {
            assert(spec_str_lt_from(a@, b@, i as int) == spec_str_lt_from(a@, b@, i + 1));
        }
        i = i + 1;
    }
}

/// Whether `p` comes strictly before `q` in pair order.
fn pair_lt(p: &(String, String), q: &(String, String)) -> (r: bool)
    ensures
        r == spec_pair_lt((p.0@, p.1@), (q.0@, q.1@)),
{
    if str_lt(p.0.as_str(), q.0.as_str()) {
        true
    } else if str_lt(q.0.as_str(), p.0.as_str()) {
        proof {
            lemma_str_lt_from_irrefl(p.0@, 0);
        }
        false
    } else {
        proof {
            lemma_str_lt_from_total(p.0@, q.0@, 0);
            assert(p.0@ =~= q.0@);
        }
        str_lt(p.1.as_str(), q.1.as_str())
    }
}

/// The first position whose pair is not strictly below `p`.
fn lower_bound(r: &Vec<(String, String)>, p: &(String, String)) -> (i: usize)
    ensures
        i <= r@.len(),
        forall|j: int| 0 <= j < i ==> spec_pair_lt(pair_views(r@)[j], (p.0@, p.1@)),
        i < r@.len() ==> !spec_pair_lt(pair_views(r@)[i as int], (p.0@, p.1@)),
{
    let mut i: usize = 0;
    while i < r.len()
        invariant
            i <= r@.len(),
            forall|j: int| 0 <= j < i ==> spec_pair_lt(pair_views(r@)[j], (p.0@, p.1@)),
        decreases r@.len() - i,
    {
        if !pair_lt(&r[i], p) {
            return i;
        }
        i = i + 1;
    }
    i
}

/// Place `p` into the sorted duplicate-free list, keeping it sorted and
/// dropping `p` when an equal pair is already there.
fn insert_pair(r: &mut Vec<(String, String)>, p: (String, String))
    requires
        sorted_unique(pair_views(old(r)@)),
    ensures
        sorted_unique(pair_views(final(r)@)),
        forall|q: (Seq<char>, Seq<char>)|
            pair_views(final(r)@).contains(q) <==> (pair_views(old(r)@).contains(q) || q == (
            p.0@,
            p.1@,
            )),
{
    let ghost pv = (p.0@, p.1@);
    let ghost olds = pair_views(r@);
    let i = lower_bound(r, &p);
    if i < r.len() {
        if !pair_lt(&p, &r[i]) {
            proof {
                lemma_str_lt_from_irrefl(pv.0, 0);
                lemma_str_lt_from_total(pv.0, pair_views(r@)[i as int].0, 0);
                assert(pv.0 =~= pair_views(r@)[i as int].0);
                lemma_str_lt_from_total(pv.1, pair_views(r@)[i as int].1, 0);
                assert(pv.1 =~= pair_views(r@)[i as int].1);
                assert(pair_views(r@)[i as int] == pv);
                assert(pair_views(r@).contains(pv));
            }
            return ;
        }
    }
    r.insert(i, p);
    proof {
        let news = pair_views(r@);
        assert(news =~= olds.insert(i as int, pv));
        assert forall|k1: int, k2: int| 0 <= k1 < k2 < news.len() implies spec_pair_lt(
            news[k1],
            news[k2],
        ) by {
            if k1 < i && k2 == i {
            } else if k1 == i && k2 > i {
                if i < olds.len() {
                    assert(news[k2] == olds[k2 - 1]);
                    if k2 - 1 > i {
                        lemma_pair_lt_trans(pv, olds[i as int], olds[k2 - 1]);
                    }
                }
            } else if k1 < i && k2 > i {
                assert(news[k1] == olds[k1]);
                assert(news[k2] == olds[k2 - 1]);
            } else {
            }
        }
        assert forall|q: (Seq<char>, Seq<char>)| news.contains(q) implies (olds.contains(q) || q
            == pv) by {
            let k = choose|k: int| 0 <= k < news.len() && news[k] == q;
            if k < i {
                assert(olds[k] == q);
            } else if k > i {
                assert(olds[k - 1] == q);
            }
        }
        assert forall|q: (Seq<char>, Seq<char>)| (olds.contains(q) || q == pv) implies
            news.contains(q) by {
            if olds.contains(q) {
                let k = choose|k: int| 0 <= k < olds.len() && olds[k] == q;
                if k < i {
                    assert(news[k] == q);
                } else {
                    assert(news[k + 1] == q);
                }
            } else {
                assert(news[i as int] == q);
            }
        }
    }
}

/// The set of pairs the expansion loops have emitted strictly before the
/// combination (a, b, c), in loop order.
pub open spec fn expn_before(
    jobsets: Seq<Seq<char>>,
    jobs: Seq<Seq<char>>,
    systems: Seq<Seq<char>>,
    a: int,
    b: int,
    c: int,
) -> Set<(Seq<char>, Seq<char>)> {
    Set::new(
        |p: (Seq<char>, Seq<char>)|
            exists|x: int, y: int, z: int|
                0 <= x < jobsets.len() && 0 <= y < jobs.len() && 0 <= z < systems.len() && (x < a
                    || (x == a && (y < b || (y == b && z < c)))) && p == spec_expanded(
                    jobsets[x],
                    jobs[y],
                    systems[z],
                ),
    )
}

/// Expand every jobset specification with every job name (the given jobs
/// followed by the maintainer-resolved extra packages) and every system
/// into (jobset path, job name) pairs, deduplicated and sorted
/// lexicographically.
#[verifier::loop_isolation(false)]
pub fn generate_job_combinations(
    jobsets: &Vec<String>,
    jobs: &Vec<String>,
    systems: &Vec<String>,
    extra_packages: &Vec<String>,
) -> (r: Vec<(String, String)>)
    ensures
        sorted_unique(pair_views(r@)),
        forall|q: (Seq<char>, Seq<char>)|
            pair_views(r@).contains(q) <==> spec_expansion(
                views_of(jobsets@),
                views_of(jobs@) + views_of(extra_packages@),
                views_of(systems@),
            ).contains(q),
{
    let ghost js = views_of(jobsets@);
    let ghost ss = views_of(systems@);
    let ghost ns = views_of(jobs@) + views_of(extra_packages@);

    let mut names: Vec<String> = Vec::new();
    let mut i: usize = 0;
    while i < jobs.len()
        invariant
            i <= jobs@.len(),
            views_of(names@) == views_of(jobs@).take(i as int),
        decreases jobs@.len() - i,
    {
        names.push(jobs[i].clone());
        proof {
            assert(views_of(names@) =~= views_of(jobs@).take(i + 1));
        }
        i = i + 1;
    }
    proof {
        assert(views_of(jobs@).take(jobs@.len() as int) =~= views_of(jobs@));
    }
    let mut i2: usize = 0;
    while i2 < extra_packages.len()
        invariant
            i2 <= extra_packages@.len(),
            views_of(names@) == views_of(jobs@) + views_of(extra_packages@).take(i2 as int),
        decreases extra_packages@.len() - i2,
    {
        names.push(extra_packages[i2].clone());
        proof {
            assert(views_of(extra_packages@).take(i2 + 1) =~= views_of(extra_packages@).take(
                i2 as int,
            ).push(extra_packages@[i2 as int]@));
            assert((views_of(jobs@) + views_of(extra_packages@).take(i2 as int)).push(
                extra_packages@[i2 as int]@,
            ) =~= views_of(jobs@) + views_of(extra_packages@).take(i2 as int).push(
                extra_packages@[i2 as int]@,
            ));
            assert(views_of(names@) =~= (views_of(jobs@) + views_of(extra_packages@).take(
                i2 as int,
            )).push(extra_packages@[i2 as int]@));
        }
        i2 = i2 + 1;
    }
    proof {
        assert(views_of(extra_packages@).take(extra_packages@.len() as int) =~= views_of(
            extra_packages@,
        ));
        assert(views_of(names@) == ns);
    }

    let mut out: Vec<(String, String)> = Vec::new();
    let mut a: usize = 0;
    while a < jobsets.len()
        invariant
            a <= jobsets@.len(),
            sorted_unique(pair_views(out@)),
            forall|q: (Seq<char>, Seq<char>)|
                pair_views(out@).contains(q) <==> expn_before(js, ns, ss, a as int, 0, 0).contains(
                    q,
                ),
        decreases jobsets@.len() - a,
    {
        let parts = parse_jobset_spec(jobsets[a].as_str());
        let mut path = String::new();
        path.append(parts.0.as_str());
        path.append("/");
        path.append(parts.1.as_str());
        let mut b: usize = 0;
        while b < names.len()
            invariant
                b <= names@.len(),
                sorted_unique(pair_views(out@)),
                forall|q: (Seq<char>, Seq<char>)|
                    pair_views(out@).contains(q) <==> expn_before(
                        js,
                        ns,
                        ss,
                        a as int,
                        b as int,
                        0,
                    ).contains(q),
            decreases names@.len() - b,
        {
            let mut c: usize = 0;
            while c < systems.len()
                invariant
                    c <= systems@.len(),
                    sorted_unique(pair_views(out@)),
                    forall|q: (Seq<char>, Seq<char>)|
                        pair_views(out@).contains(q) <==> expn_before(
                            js,
                            ns,
                            ss,
                            a as int,
                            b as int,
                            c as int,
                        ).contains(q),
                decreases systems@.len() - c,
            {
                let mut name = String::new();
                name.append(parts.2.as_str());
                name.append(names[b].as_str());
                name.append(".");
                name.append(systems[c].as_str());
                let pair = (path.clone(), name);
                proof {
                    assert((pair.0@, pair.1@) == spec_expanded(
                        js[a as int],
                        ns[b as int],
                        ss[c as int],
                    ));
                }
                insert_pair(&mut out, pair);
                proof {
                    assert forall|q: (Seq<char>, Seq<char>)|
                        pair_views(out@).contains(q) <==> expn_before(
                            js,
                            ns,
                            ss,
                            a as int,
                            b as int,
                            c + 1,
                        ).contains(q) by {
                        if q == spec_expanded(js[a as int], ns[b as int], ss[c as int]) {
                            assert(expn_before(js, ns, ss, a as int, b as int, c + 1).contains(q));
                        }
                    }
                }
                c = c + 1;
            }
            proof {
                assert(expn_before(js, ns, ss, a as int, b as int, systems@.len() as int)
                    =~= expn_before(js, ns, ss, a as int, b + 1, 0));
            }
            b = b + 1;
        }
        proof {
            assert(expn_before(js, ns, ss, a as int, names@.len() as int, 0) =~= expn_before(
                js,
                ns,
                ss,
                a + 1,
                0,
                0,
            ));
        }
        a = a + 1;
    }
    proof {
        assert(expn_before(js, ns, ss, jobsets@.len() as int, 0, 0) =~= spec_expansion(
            js,
            ns,
            ss,
        ));
    }
    out
}

} // verus!
