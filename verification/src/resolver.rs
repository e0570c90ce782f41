//! The binary-resolution search: which candidates to probe, in which
//! order, how a probe's captured output is read, and which candidate the
//! whole search selects.
//!
//! Probing a candidate means running it with a version-query flag and
//! capturing its standard output; that is process I/O and is done by the
//! caller, which walks the candidate list in order, hands each captured
//! output to [`accept_probe`], and stops at the first acceptance.
//! [`find_bin`] states the semantics of that whole walk over a recorded
//! list of outcomes: the first candidate whose output reports an accepted
//! major version wins.

use vstd::prelude::*;

use crate::strings::dec_str;
use crate::strings::is_space;
use crate::strings::is_space_char;
use crate::strings::str_eq;
use crate::strings::str_starts_with;
use crate::strings::u32_to_string;

verus! {

// ---------------------------------------------------------------------
// Version extraction: the token after the literal word `version` in a
// probe's captured output.
// ---------------------------------------------------------------------
/// The marker the version scanner looks for.
pub open spec fn version_marker() -> Seq<char> {
    "version "@
}

/// Whether the marker occurs at position `i` of `s` with a version token
/// (a non-space character) right after it.
pub open spec fn marker_at(s: Seq<char>, i: int) -> bool {
    &&& 0 <= i
    &&& i + 9 <= s.len()
    &&& s.subrange(i, i + 8) == version_marker()
    &&& !is_space(s[i + 8])
}

/// The first position at or after `i` where the marker occurs, if any.
pub open spec fn find_marker(s: Seq<char>, i: int) -> Option<int>
    decreases s.len() - i,
{
    if i + 9 > s.len() {
        None
    } else if marker_at(s, i) {
        Some(i)
    } else {
        find_marker(s, i + 1)
    }
}

/// The end of the whitespace-delimited token that starts at `j`: the first
/// space at or after `j`, or the end of `s`.
pub open spec fn token_end(s: Seq<char>, j: int) -> int
    decreases s.len() - j,
{
    if j < 0 || j >= s.len() {
        s.len() as int
    } else if is_space(s[j]) {
        j
    } else {
        token_end(s, j + 1)
    }
}

/// The version a probe's captured output reports: the whitespace-delimited
/// token right after the first occurrence of the marker, if there is one.
pub open spec fn extracted_version(s: Seq<char>) -> Option<Seq<char>> {
    match find_marker(s, 0) {
        Some(i) => Some(s.subrange(i + 8, token_end(s, i + 8))),
        None => None,
    }
}

/// Checks the marker at position `i` of `s`.
fn marker_at_exec(s: &str, i: usize) -> (b: bool)
    requires
        i + 9 <= s@.len(),
        s@.len() <= usize::MAX,
    ensures
        b == marker_at(s@, i as int),
{
    let sub = s.substring_char(i, i + 8);
    if str_eq(sub, "version ") {
        let c = s.get_char(i + 8);
        !is_space_char(c)
    } else {
        false
    }
}

/// Extracts the reported version from a probe's captured output; `None`
/// exactly when the output carries no marker followed by a token.
pub fn parse_version(output: &str) -> (r: Option<String>)
    ensures
        r.deep_view() == extracted_version(output@),
{
    let len = output.unicode_len();
    if len < 9 {
        return None;
    }
    let mut i: usize = 0;
    let mut found = false;
    while !found && i <= len - 9
        invariant
            len == output@.len(),
            len >= 9,
            0 <= i <= len - 8,
            find_marker(output@, 0) == find_marker(output@, i as int),
            found ==> i <= len - 9 && marker_at(output@, i as int),
        decreases len - i + (if found { 0int } else { 1int }),
    {
        if marker_at_exec(output, i) {
            found = true;
        } else {
            i = i + 1;
        }
    }
    if !found {
        proof {
            assert(find_marker(output@, i as int) is None);
        }
        return None;
    }
    proof {
        assert(find_marker(output@, i as int) == Some(i as int));
    }
    let start = i + 8;
    let mut e: usize = start;
    while e < len && !is_space_char(output.get_char(e))
        invariant
            len == output@.len(),
            start <= e <= len,
            token_end(output@, start as int) == token_end(output@, e as int),
        decreases len - e,
    {
        e = e + 1;
    }
    proof {
        assert(token_end(output@, e as int) == e);
    }
    let v = output.substring_char(start, e).to_owned();
    Some(v)
}

// ---------------------------------------------------------------------
// Version matching: prefix-exact on the major number.
// ---------------------------------------------------------------------
/// Whether a reported version string matches an accepted major number:
/// it must start with the full decimal major followed by a dot.
pub open spec fn version_matches(v: Seq<char>, major: u32) -> bool {
    (dec_str(major as int).push('.')).is_prefix_of(v)
}

/// Executable form of [`version_matches`].
pub fn version_has_major(v: &str, major: u32) -> (b: bool)
    ensures
        b == version_matches(v@, major),
{
    let mut p = u32_to_string(major);
    p.append(".");
    proof {
        reveal_strlit(".");
        assert(p@ =~= dec_str(major as int).push('.'));
    }
    str_starts_with(v, p.as_str())
}

/// Law: version matching is dot-bounded.  A matching version carries the
/// whole accepted major number and then a dot, so a reported major that
/// merely begins with the digits of the accepted one never matches.
pub proof fn lemma_version_match_dot_boundary(v: Seq<char>, major: u32)
    requires
        version_matches(v, major),
    ensures
        v.len() > dec_str(major as int).len(),
        v[dec_str(major as int).len() as int] == '.',
{
    let p = dec_str(major as int).push('.');
    assert(p[p.len() - 1] == '.');
    assert(v[dec_str(major as int).len() as int] == v.subrange(0, p.len() as int)[p.len() - 1]);
}

// ---------------------------------------------------------------------
// The candidate list: for each accepted major version in priority order,
// the four location strategies in their fixed order.
// ---------------------------------------------------------------------
/// One candidate to probe: what to invoke, and the major version its
/// reported version is held against.
pub struct Candidate {
    pub invocation: String,
    pub major: u32,
}

impl View for Candidate {
    type V = (Seq<char>, u32);

    open spec fn view(&self) -> (Seq<char>, u32) {
        (self.invocation@, self.major)
    }
}

/// The package-manager default installation path for a logical binary.
pub open spec fn homebrew_default_path(prefix: Seq<char>, name: Seq<char>) -> Seq<char> {
    prefix + "/opt/llvm/bin/"@ + name
}

/// The package-manager versioned installation path for a logical binary.
pub open spec fn homebrew_versioned_path(prefix: Seq<char>, major: u32, name: Seq<char>) -> Seq<
    char,
> {
    prefix + "/opt/llvm@"@ + dec_str(major as int) + "/bin/"@ + name
}

/// The version-suffixed spelling of a logical binary name.
pub open spec fn suffixed_name(name: Seq<char>, major: u32) -> Seq<char> {
    name + "-"@ + dec_str(major as int)
}

/// The candidates tried for one accepted major version, in order: the two
/// package-manager paths (only when an install prefix hint is available),
/// then the bare name, then the version-suffixed name.
pub open spec fn candidates_for(name: Seq<char>, major: u32, prefix: Option<Seq<char>>) -> Seq<
    (Seq<char>, u32),
> {
    let tail = seq![(name, major), (suffixed_name(name, major), major)];
    match prefix {
        Some(p) => seq![
            (homebrew_default_path(p, name), major),
            (homebrew_versioned_path(p, major, name), major),
        ] + tail,
        None => tail,
    }
}

/// The full search plan: accepted major versions in priority order on the
/// outside, location strategies on the inside.
pub open spec fn spec_candidates(
    name: Seq<char>,
    majors: Seq<u32>,
    prefix: Option<Seq<char>>,
) -> Seq<(Seq<char>, u32)>
    decreases majors.len(),
{
    if majors.len() == 0 {
        Seq::empty()
    } else {
        spec_candidates(name, majors.drop_last(), prefix) + candidates_for(
            name,
            majors.last(),
            prefix,
        )
    }
}

/// Builds the ordered candidate list for a logical binary name, a
/// priority-ordered list of accepted major versions, and an optional
/// package-manager install prefix hint.
pub fn candidates(name: &str, majors: &Vec<u32>, prefix: &Option<String>) -> (r: Vec<Candidate>)
    ensures
        r@.map_values(|c: Candidate| c@) == spec_candidates(name@, majors@, prefix.deep_view()),
{
    let mut r: Vec<Candidate> = Vec::new();
    let n = majors.len();
    let mut i: usize = 0;
    while i < n
        invariant
            n == majors@.len(),
            i <= n,
            r@.map_values(|c: Candidate| c@) == spec_candidates(
                name@,
                majors@.take(i as int),
                prefix.deep_view(),
            ),
        decreases n - i,
    {
        let ghost prev = r@.map_values(|c: Candidate| c@);
        let major = majors[i];
        match prefix {
            Some(p) => {
                let mut s1 = String::new();
                s1.append(p.as_str());
                s1.append("/opt/llvm/bin/");
                s1.append(name);
                proof {
                    assert(s1@ =~= homebrew_default_path(p@, name@));
                }
                r.push(Candidate { invocation: s1, major });
                let mut s2 = String::new();
                s2.append(p.as_str());
                s2.append("/opt/llvm@");
                s2.append(u32_to_string(major).as_str());
                s2.append("/bin/");
                s2.append(name);
                proof {
                    assert(s2@ =~= homebrew_versioned_path(p@, major, name@));
                }
                r.push(Candidate { invocation: s2, major });
            },
            None => {
            },
        }
        let bare = name.to_owned();
        r.push(Candidate { invocation: bare, major });
        let mut suff = String::new();
        suff.append(name);
        suff.append("-");
        suff.append(u32_to_string(major).as_str());
        proof {
            assert(suff@ =~= suffixed_name(name@, major));
        }
        r.push(Candidate { invocation: suff, major });
        proof {
            assert(r@.map_values(|c: Candidate| c@) =~= prev + candidates_for(
                name@,
                major,
                prefix.deep_view(),
            ));
            assert(majors@.take(i + 1 as int).drop_last() =~= majors@.take(i as int));
            assert(majors@.take(i + 1 as int).last() == majors@[i as int]);
        }
        i = i + 1;
    }
    proof {
        assert(majors@.take(n as int) =~= majors@);
    }
    r
}

// ---------------------------------------------------------------------
// Probe acceptance and the search decision.
// ---------------------------------------------------------------------
/// Whether one probe outcome settles the search for a given accepted major
/// version.  `output` is the probe's captured standard output; `None`
/// stands for any failed probe (binary not found, spawn failure, output
/// not decodable), which never matches.
pub open spec fn probe_accepts(output: Option<Seq<char>>, major: u32) -> bool {
    match output {
        Some(out) => match extracted_version(out) {
            Some(v) => version_matches(v, major),
            None => false,
        },
        None => false,
    }
}

/// Decides one probe: the captured output must report a version whose
/// major number is the candidate's.
pub fn accept_probe(output: &Option<String>, major: u32) -> (b: bool)
    ensures
        b == probe_accepts(output.deep_view(), major),
{
    match output {
        Some(out) => match parse_version(out.as_str()) {
            Some(v) => version_has_major(v.as_str(), major),
            None => false,
        },
        None => false,
    }
}

/// The search decision over a recorded list of probe outcomes, one per
/// candidate and in candidate order: the first candidate whose outcome
/// reports a matching version is selected; no candidate earlier in the
/// fixed search order is ever passed over in favour of a later one.
pub fn find_bin(cands: &Vec<Candidate>, outcomes: &Vec<Option<String>>) -> (r: Option<usize>)
    requires
        cands@.len() == outcomes@.len(),
    ensures
        match r {
            Some(i) => {
                &&& i < cands@.len()
                &&& probe_accepts(outcomes.deep_view()[i as int], cands@[i as int].major)
                &&& forall|j: int|
                    0 <= j < i ==> !probe_accepts(
                        outcomes.deep_view()[j],
                        cands@[j].major,
                    )
            },
            None => forall|j: int|
                0 <= j < cands@.len() ==> !probe_accepts(
                    outcomes.deep_view()[j],
                    cands@[j].major,
                ),
        },
{
    let n = cands.len();
    let mut i: usize = 0;
    while i < n
        invariant
            n == cands@.len(),
            n == outcomes@.len(),
            i <= n,
            forall|j: int| 0 <= j < i ==> !probe_accepts(outcomes.deep_view()[j], cands@[j].major),
        decreases n - i,
    {
        if accept_probe(&outcomes[i], cands[i].major) {
            return Some(i);
        }
        i = i + 1;
    }
    None
}

// ---------------------------------------------------------------------
// Invocation-name handling and small collaborator-output helpers.
// ---------------------------------------------------------------------
/// A path separator, on either slash convention.
pub open spec fn is_sep(c: char) -> bool {
    c == '/' || c == '\\'
}

/// Executable form of [`is_sep`].
pub fn is_sep_char(c: char) -> (b: bool)
    ensures
        b == is_sep(c),
{
    c == '/' || c == '\\'
}

/// Whether an invocation string is already a path (and is probed as-is)
/// rather than a bare name (which goes through an executable-search-path
/// lookup).
pub open spec fn contains_sep(s: Seq<char>) -> bool {
    exists|i: int| 0 <= i < s.len() && is_sep(#[trigger] s[i])
}

/// Executable form of [`contains_sep`].
pub fn has_path_separator(s: &str) -> (b: bool)
    ensures
        b == contains_sep(s@),
{
    let len = s.unicode_len();
    let mut i: usize = 0;
    while i < len
        invariant
            len == s@.len(),
            i <= len,
            forall|j: int| 0 <= j < i ==> !is_sep(#[trigger] s@[j]),
        decreases len - i,
    {
        if is_sep_char(s.get_char(i)) {
            return true;
        }
        i = i + 1;
    }
    false
}

/// The last path component of `s`: everything after the final separator,
/// or all of `s` when it has none.
pub open spec fn spec_base_name(s: Seq<char>) -> Seq<char>
    decreases s.len(),
{
    if s.len() == 0 {
        s
    } else if is_sep(s.last()) {
        Seq::empty()
    } else {
        spec_base_name(s.drop_last()).push(s.last())
    }
}

proof fn lemma_base_name(s: Seq<char>, k: int)
    requires
        0 <= k <= s.len(),
        forall|i: int| k <= i < s.len() ==> !is_sep(#[trigger] s[i]),
        k == 0 || is_sep(s[k - 1]),
    ensures
        spec_base_name(s) == s.subrange(k, s.len() as int),
    decreases s.len(),
{
    if s.len() == 0 {
        assert(spec_base_name(s) =~= s.subrange(k, s.len() as int));
    } else if k == s.len() {
        assert(is_sep(s.last()));
        assert(spec_base_name(s) =~= s.subrange(k, s.len() as int));
    } else {
        assert(!is_sep(s.last()));
        lemma_base_name(s.drop_last(), k);
        assert(spec_base_name(s.drop_last()).push(s.last()) =~= s.subrange(k, s.len() as int));
    }
}

/// The last path component of a path, as the invocation name of the shim
/// is read out of argument zero.
pub fn base_name(path: &str) -> (r: String)
    ensures
        r@ == spec_base_name(path@),
{
    let len = path.unicode_len();
    let mut k: usize = len;
    while k > 0 && !is_sep_char(path.get_char(k - 1))
        invariant
            len == path@.len(),
            k <= len,
            forall|i: int| k <= i < len ==> !is_sep(#[trigger] path@[i]),
        decreases k,
    {
        k = k - 1;
    }
    let r = path.substring_char(k, len).to_owned();
    proof {
        lemma_base_name(path@, k as int);
    }
    r
}

/// The name-alias step of self-name resolution: invoked under the shim's
/// own product name, the shim resolves the default underlying tool,
/// `clang`; invoked under any other name, it resolves that name verbatim.
pub open spec fn spec_logical_name(invoked: Seq<char>, shim_name: Seq<char>) -> Seq<char> {
    if invoked == shim_name {
        "clang"@
    } else {
        invoked
    }
}

/// Executable form of [`spec_logical_name`].
pub fn logical_name(invoked: &str, shim_name: &str) -> (r: String)
    ensures
        r@ == spec_logical_name(invoked@, shim_name@),
{
    if str_eq(invoked, shim_name) {
        "clang".to_owned()
    } else {
        invoked.to_owned()
    }
}

/// `s` with leading spaces removed.
pub open spec fn trim_front(s: Seq<char>) -> Seq<char>
    decreases s.len(),
{
    if s.len() > 0 && is_space(s[0]) {
        trim_front(s.drop_first())
    } else {
        s
    }
}

/// `s` with trailing spaces removed.
pub open spec fn trim_back(s: Seq<char>) -> Seq<char>
    decreases s.len(),
{
    if s.len() > 0 && is_space(s.last()) {
        trim_back(s.drop_last())
    } else {
        s
    }
}

/// `s` with leading and trailing spaces removed, as the package-manager
/// collaborator's reported install prefix is cleaned before use.
pub open spec fn spec_trim(s: Seq<char>) -> Seq<char> {
    trim_back(trim_front(s))
}

/// Executable form of [`spec_trim`].
pub fn trim_spaces(s: &str) -> (r: String)
    ensures
        r@ == spec_trim(s@),
{
    let len = s.unicode_len();
    proof {
        assert(s@.skip(0) =~= s@);
    }
    let mut a: usize = 0;
    while a < len && is_space_char(s.get_char(a))
        invariant
            len == s@.len(),
            a <= len,
            trim_front(s@) == trim_front(s@.skip(a as int)),
        decreases len - a,
    {
        proof {
            assert(s@.skip(a as int)[0] == s@[a as int]);
            assert(s@.skip(a as int).drop_first() =~= s@.skip(a + 1 as int));
        }
        a = a + 1;
    }
    proof {
        assert(trim_front(s@) =~= s@.skip(a as int)) by {
            if a < len {
                assert(!is_space(s@.skip(a as int)[0]));
            }
        }
    }
    let mut b: usize = len;
    while b > a && is_space_char(s.get_char(b - 1))
        invariant
            len == s@.len(),
            a <= b <= len,
            trim_back(s@.skip(a as int)) == trim_back(s@.subrange(a as int, b as int)),
        decreases b,
    {
        proof {
            let sub = s@.subrange(a as int, b as int);
            assert(sub.last() == s@[b - 1]);
            assert(sub.drop_last() =~= s@.subrange(a as int, b - 1));
        }
        b = b - 1;
    }
    proof {
        let sub = s@.subrange(a as int, b as int);
        if b > a {
            assert(sub.last() == s@[b - 1]);
        }
        assert(trim_back(sub) == sub);
        assert(s@.skip(a as int) =~= s@.subrange(a as int, len as int));
    }
    s.substring_char(a, b).to_owned()
}

/// The compiled-in accepted major versions, highest priority first.
pub fn default_major_versions() -> (v: Vec<u32>)
    ensures
        v@ == seq![16u32, 15u32, 14u32],
{
    let mut v: Vec<u32> = Vec::new();
    v.push(16);
    v.push(15);
    v.push(14);
    proof {
        assert(v@ =~= seq![16u32, 15u32, 14u32]);
    }
    v
}

/// The rendering of the accepted-version list inside the resolution
/// failure diagnostic.
pub open spec fn versions_list(majors: Seq<u32>) -> Seq<char>
    decreases majors.len(),
{
    if majors.len() == 0 {
        Seq::empty()
    } else if majors.len() == 1 {
        dec_str(majors[0] as int)
    } else {
        versions_list(majors.drop_last()) + ", "@ + dec_str(majors.last() as int)
    }
}

/// The diagnostic for an exhausted search: it names the logical binary and
/// the full accepted-version list.
pub open spec fn failure_message(name: Seq<char>, majors: Seq<u32>) -> Seq<char> {
    "Cannot find "@ + name + " with major versions: ["@ + versions_list(majors)
        + "], make sure you have LLVM properly installed!"@
}

/// Builds the resolution-failure diagnostic.
pub fn resolution_failure_message(name: &str, majors: &Vec<u32>) -> (m: String)
    ensures
        m@ == failure_message(name@, majors@),
{
    let mut m = String::new();
    m.append("Cannot find ");
    m.append(name);
    m.append(" with major versions: [");
    let ghost head = "Cannot find "@ + name@ + " with major versions: ["@;
    let n = majors.len();
    let mut i: usize = 0;
    while i < n
        invariant
            n == majors@.len(),
            i <= n,
            m@ == head + versions_list(majors@.take(i as int)),
        decreases n - i,
    {
        if i > 0 {
            m.append(", ");
        }
        let d = u32_to_string(majors[i]);
        m.append(d.as_str());
        proof {
            assert(majors@.take(i + 1 as int).drop_last() =~= majors@.take(i as int));
            assert(majors@.take(i + 1 as int).last() == majors@[i as int]);
            if i == 0 {
                assert(versions_list(majors@.take(1)) == dec_str(majors@[0] as int));
                assert(m@ =~= head + versions_list(majors@.take(i + 1 as int)));
            } else {
                assert(m@ =~= head + versions_list(majors@.take(i + 1 as int)));
            }
        }
        i = i + 1;
    }
    m.append("], make sure you have LLVM properly installed!");
    proof {
        assert(majors@.take(n as int) =~= majors@);
        assert(m@ =~= failure_message(name@, majors@));
    }
    m
}

} // verus!
