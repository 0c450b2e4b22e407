//! Build records from the Hydra build farm: classifying a numeric build
//! status, forming a job's canonical full name, and discovering the latest
//! build id of a job from its HTML status page.

use vstd::prelude::*;

verus! {

/// The structured record Hydra keeps for a single build.
pub struct HydraBuild {
    pub id: u64,
    pub buildstatus: u8,
    pub project: String,
    pub jobset: String,
    pub job: String,
    pub nixname: String,
}

/// The human-readable text for a numeric build status.  Total: every code
/// maps to some text, unknown codes to a generic failure text.
pub open spec fn spec_status_text(status: u8) -> Seq<char> {
    if status == 0 {
        "Succeeded"@
    } else if status == 1 {
        "Failed"@
    } else if status == 2 {
        "Dependency Failed"@
    } else if status == 3 || status == 9 {
        "Aborted"@
    } else if status == 4 {
        "Cancelled"@
    } else if status == 6 {
        "Failed with output"@
    } else if status == 7 {
        "Timed out"@
    } else if status == 10 {
        "Log limit exceeded"@
    } else if status == 11 {
        "Output size limit exceeded"@
    } else if status == 12 {
        "Non-deterministic build"@
    } else {
        "Failed (unknown)"@
    }
}

/// A build is failing exactly when its status code is not zero.
pub open spec fn spec_is_failing(status: u8) -> bool {
    status != 0
}

/// The canonical identity of a job: `project:jobset:job`.  It keys the
/// durable status store and deduplicates builds.
pub open spec fn spec_full_name(project: Seq<char>, jobset: Seq<char>, job: Seq<char>) -> Seq<char> {
    project + ":"@ + jobset + ":"@ + job
}

/// The full name of a build's job, the key under which its status is
/// tracked.
pub open spec fn spec_key(b: HydraBuild) -> Seq<char> {
    spec_full_name(b.project@, b.jobset@, b.job@)
}

impl HydraBuild {
    pub fn build_status_to_str(&self) -> (r: &'static str)
        ensures
            r@ == spec_status_text(self.buildstatus),
    {
        match self.buildstatus {
            0 => "Succeeded",
            1 => "Failed",
            2 => "Dependency Failed",
            3 | 9 => "Aborted",
            4 => "Cancelled",
            6 => "Failed with output",
            7 => "Timed out",
            10 => "Log limit exceeded",
            11 => "Output size limit exceeded",
            12 => "Non-deterministic build",
            _ => "Failed (unknown)",
        }
    }

    pub fn is_failing(&self) -> (r: bool)
        ensures
            r == spec_is_failing(self.buildstatus),
    {
        self.buildstatus != 0
    }

    pub fn get_full_name(&self) -> (r: String)
        ensures
            r@ == spec_full_name(self.project@, self.jobset@, self.job@),
    {
        let mut res = String::new();
        res.append(self.project.as_str());
        res.append(":");
        res.append(self.jobset.as_str());
        res.append(":");
        res.append(self.job.as_str());
        res
    }
}

/// Why no build id could be produced for a job.
#[derive(PartialEq, Eq, Structural, Clone, Copy, Debug)]
pub enum FetchError {
    /// The status page carries the warning that the job is not part of
    /// the latest evaluation.
    NotInLatestEvaluation,
    /// No build link was found on the status page, or its text is not a
    /// number.
    NoLatestBuild,
}

pub open spec fn spec_is_digit(c: char) -> bool {
    '0' <= c && c <= '9'
}

pub open spec fn spec_digit_value(c: char) -> int {
    (c as u32) - ('0' as u32)
}

/// The number written by a digit sequence, most significant digit first.
pub open spec fn spec_num_val(s: Seq<char>) -> int
    decreases s.len(),
{
    if s.len() == 0 {
        0
    } else {
        spec_num_val(s.drop_last()) * 10 + spec_digit_value(s.last())
    }
}

/// The digits of a number's text, one leading `+` allowed.
pub open spec fn spec_parse_body(s: Seq<char>) -> Seq<char> {
    if s.len() > 0 && s[0] == '+' {
        s.subrange(1, s.len() as int)
    } else {
        s
    }
}

/// Whether a number's text is well formed: an optional leading `+`,
/// then one or more decimal digits, nothing else, and a value that fits.
pub open spec fn spec_parse_ok(s: Seq<char>) -> bool {
    &&& spec_parse_body(s).len() > 0
    &&& forall|j: int| 0 <= j < spec_parse_body(s).len() ==> spec_is_digit(spec_parse_body(s)[j])
    &&& spec_num_val(spec_parse_body(s)) <= u64::MAX
}

/// How `u64` values are read from text.
pub open spec fn spec_parse_u64(s: Seq<char>) -> Option<u64> {
    if spec_parse_ok(s) {
        Some(spec_num_val(spec_parse_body(s)) as u64)
    } else {
        None
    }
}

proof fn lemma_num_val_nonneg(s: Seq<char>)
    requires
        forall|j: int| 0 <= j < s.len() ==> spec_is_digit(s[j]),
    ensures
        spec_num_val(s) >= 0,
    decreases s.len(),
{
    if s.len() > 0 {
        assert(forall|j: int| 0 <= j < s.drop_last().len() ==> spec_is_digit(s.drop_last()[j]));
        lemma_num_val_nonneg(s.drop_last());
    }
}

/// A digit sequence is worth at least any of its prefixes.
proof fn lemma_num_val_prefix(s: Seq<char>, m: int)
    requires
        forall|j: int| 0 <= j < s.len() ==> spec_is_digit(s[j]),
        0 <= m <= s.len(),
    ensures
        spec_num_val(s.take(m)) <= spec_num_val(s),
    decreases s.len() - m,
{
    if m == s.len() {
        assert(s.take(m) =~= s);
    } else {
        assert(forall|j: int| 0 <= j < s.drop_last().len() ==> spec_is_digit(s.drop_last()[j]));
        lemma_num_val_prefix(s.drop_last(), m);
        assert(s.drop_last().take(m) =~= s.take(m));
        lemma_num_val_nonneg(s.drop_last());
    }
}

/// Read a `u64` from text: an optional leading `+`, then decimal digits.
pub fn parse_u64(s: &str) -> (r: Option<u64>)
    ensures
        r == spec_parse_u64(s@),
{
    let n = s.unicode_len();
    let plus = n > 0 && s.get_char(0) == '+';
    let start: usize = if plus {
        1
    } else {
        0
    };
    let ghost body = spec_parse_body(s@);
    proof {
        assert(body =~= s@.subrange(start as int, n as int));
    }
    if n == start {
        return None;
    }
    let mut val: u64 = 0;
    let mut i: usize = start;
    while i < n
        invariant
            start <= i <= n,
            n == s@.len(),
            start <= 1,
            body == spec_parse_body(s@),
            body == s@.subrange(start as int, n as int),
            body.len() == n - start,
            forall|j: int| 0 <= j < i - start ==> spec_is_digit(body[j]),
            val == spec_num_val(body.take(i - start)),
        decreases n - i,
    {
        let c = s.get_char(i);
        proof {
            assert(body[i - start] == c);
        }
        if c < '0' || c > '9' {
            proof {
                assert(!spec_is_digit(body[i - start]));
            }
            return None;
        }
        let d: u32 = (c as u32) - ('0' as u32);
        proof {
            assert(body.take(i - start + 1).drop_last() =~= body.take(i - start));
            assert(body.take(i - start + 1).last() == c);
            assert(spec_num_val(body.take(i - start + 1)) == val * 10 + d);
        }
        let next = match val.checked_mul(10) {
            Some(v10) => v10.checked_add(d as u64),
            None => None,
        };
        match next {
            Some(v) => {
                val = v;
            },
            None => {
                proof {
                    assert(spec_num_val(body.take(i - start + 1)) > u64::MAX);
                    if forall|j: int| 0 <= j < body.len() ==> spec_is_digit(body[j]) {
                        lemma_num_val_prefix(body, i - start + 1);
                        assert(spec_num_val(body) > u64::MAX);
                    }
                }
                return None;
            },
        }
        i = i + 1;
    }
    proof {
        assert(body.take(n - start) =~= body);
    }
    Some(val)
}

/// What scraper finds in a document: the concatenated text of the first
/// element matching a CSS selector, absent when nothing matches.
pub uninterp spec fn spec_selected_first_text(html: Seq<char>, selector: Seq<char>) -> Option<
    Seq<char>,
>;

/// Relies on scraper's `Selector::parse`, `Html::parse_document`,
/// `Html::select` and `ElementRef::text`: the concatenated text of the
/// first element of the parsed document that the selector matches,
/// `None` when nothing matches or the selector text is invalid.  The
/// outcome depends on the two strings alone.
#[verifier::external_body]
fn select_first_text(html: &str, selector: &str) -> (r: Option<String>)
    ensures
        match r {
            Some(t) => spec_selected_first_text(html@, selector@) == Some(t@),
            None => spec_selected_first_text(html@, selector@) is None,
        },
{
    match scraper::Selector::parse(selector) {
        Ok(sel) => {
            let dom = scraper::Html::parse_document(html);
            dom.select(&sel).next().map(|element| element.text().collect::<String>())
        },
        Err(_) => None,
    }
}

/// What the status page of a job yields: the id of its latest build.
/// A page with the "not part of the latest evaluation" warning is
/// rejected as such; otherwise the text of the first build link in the
/// status table must read as a number.
pub open spec fn spec_discover_build_id(html: Seq<char>) -> Result<u64, FetchError> {
    if spec_selected_first_text(html, ".alert.alert-warning"@) is Some {
        Err(FetchError::NotInLatestEvaluation)
    } else {
        match spec_selected_first_text(html, "#tabs-status table td a.row-link"@) {
            Some(t) => match spec_parse_u64(t) {
                Some(id) => Ok(id),
                None => Err(FetchError::NoLatestBuild),
            },
            None => Err(FetchError::NoLatestBuild),
        }
    }
}

/// Find the latest build id of a job in its HTML status page.
pub fn discover_build_id(html: &str) -> (r: Result<u64, FetchError>)
    ensures
        r == spec_discover_build_id(html@),
{
    if select_first_text(html, ".alert.alert-warning").is_some() {
        return Err(FetchError::NotInLatestEvaluation);
    }
    match select_first_text(html, "#tabs-status table td a.row-link") {
        Some(t) => match parse_u64(t.as_str()) {
            Some(id) => Ok(id),
            None => Err(FetchError::NoLatestBuild),
        },
        None => Err(FetchError::NoLatestBuild),
    }
}

} // verus!
