//! Structured versions derived from loosely-formed manifest tokens: the
//! normalizer that canonicalizes workspace references and strips carets,
//! the lenient parser, and the three-level numeric comparator.

use vstd::prelude::*;

use core::cmp::Ordering;
use crate::text::{dec_rep, lex_le, parse_segment, segment_value, str_eq, usize_to_decimal};

verus! {

/// A version parsed from a manifest token: either a repo-local workspace
/// reference, or three numeric segments ordered lexicographically.
#[derive(Clone, Copy, Debug)]
pub struct SemanticVersion {
    pub workspace: bool,
    pub major: usize,
    pub minor: usize,
    pub patch: usize,
}

// --- normalization ---

/// `s` with every caret removed.
pub open spec fn spec_strip_carets(s: Seq<char>) -> Seq<char>
    decreases s.len(),
{
    if s.len() == 0 {
        Seq::empty()
    } else if s.last() == '^' {
        spec_strip_carets(s.drop_last())
    } else {
        spec_strip_carets(s.drop_last()).push(s.last())
    }
}

/// Canonical form of a raw version token: the two workspace-reference
/// spellings collapse to `workspace`, and any other token has every caret
/// stripped (a textual strip only; no other range operator is touched).
pub open spec fn spec_normalize(s: Seq<char>) -> Seq<char> {
    if s == "workspace:^"@ || s == "workspace:*"@ {
        "workspace"@
    } else {
        spec_strip_carets(s)
    }
}

/// Canonicalizes a raw version token, as [`spec_normalize`] describes.
pub fn normalize(raw: &str) -> (r: String)
    ensures
        r@ == spec_normalize(raw@),
{
    if str_eq(raw, "workspace:^") || str_eq(raw, "workspace:*") {
        proof {
            reveal_strlit("workspace:^");
            reveal_strlit("workspace:*");
        }
        return String::from_str("workspace");
    }
    let n = raw.unicode_len();
    let mut out = String::new();
    let mut i: usize = 0;
    while i < n
        invariant
            0 <= i <= n,
            n == raw@.len(),
            out@ == spec_strip_carets(raw@.subrange(0, i as int)),
        decreases n - i,
    {
        let c = raw.get_char(i);
        proof {
            assert(raw@.subrange(0, i + 1).drop_last() =~= raw@.subrange(0, i as int));
            assert(raw@.subrange(0, i + 1).last() == raw@[i as int]);
        }
        if c != '^' {
            let piece = raw.substring_char(i, i + 1);
            out.append(piece);
            proof {
                assert(out@ =~= spec_strip_carets(raw@.subrange(0, i + 1)));
            }
        }
        i += 1;
    }
    proof {
        assert(raw@.subrange(0, n as int) =~= raw@);
    }
    out
}

/// A stripped token holds no caret.
proof fn lemma_strip_carets_no_caret(s: Seq<char>)
    ensures
        forall|i: int| 0 <= i < spec_strip_carets(s).len() ==> spec_strip_carets(s)[i] != '^',
    decreases s.len(),
{
    if s.len() > 0 {
        lemma_strip_carets_no_caret(s.drop_last());
        let t = spec_strip_carets(s);
        let u = spec_strip_carets(s.drop_last());
        if s.last() != '^' {
            assert forall|i: int| 0 <= i < t.len() implies t[i] != '^' by {
                if i < u.len() {
                    assert(t[i] == u[i]);
                } else {
                    assert(t[i] == s.last());
                }
            }
        }
    }
}

/// Stripping carets from a caret-free token changes nothing.
proof fn lemma_strip_carets_caret_free(s: Seq<char>)
    requires
        forall|i: int| 0 <= i < s.len() ==> s[i] != '^',
    ensures
        spec_strip_carets(s) == s,
    decreases s.len(),
{
    if s.len() == 0 {
        assert(spec_strip_carets(s) =~= s);
    } else {
        lemma_strip_carets_caret_free(s.drop_last());
        assert(spec_strip_carets(s) =~= s);
    }
}

/// Law: normalization is idempotent. The one family of exceptions consists
/// of raw tokens, other than the workspace spellings themselves, whose
/// caret-stripped form spells `workspace:*`; the precondition leaves
/// exactly those out.
pub proof fn lemma_normalize_idempotent(s: Seq<char>)
    requires
        spec_normalize(s) != "workspace:*"@,
    ensures
        spec_normalize(spec_normalize(s)) == spec_normalize(s),
{
    reveal_strlit("workspace:^");
    reveal_strlit("workspace:*");
    reveal_strlit("workspace");
    let t = spec_normalize(s);
    if s == "workspace:^"@ || s == "workspace:*"@ {
        assert(t == "workspace"@);
        assert(t != "workspace:^"@ && t != "workspace:*"@);
        assert(forall|i: int| 0 <= i < t.len() ==> t[i] != '^');
        lemma_strip_carets_caret_free(t);
    } else {
        assert(t == spec_strip_carets(s));
        lemma_strip_carets_no_caret(s);
        assert(t != "workspace:^"@) by {
            if t == "workspace:^"@ {
                assert(t[10] == '^');
            }
        }
        lemma_strip_carets_caret_free(t);
    }
}

// --- parsing ---

/// `s` without its leading carets.
pub open spec fn spec_strip_leading_carets(s: Seq<char>) -> Seq<char>
    decreases s.len(),
{
    if s.len() > 0 && s[0] == '^' {
        spec_strip_leading_carets(s.drop_first())
    } else {
        s
    }
}

/// Index of the first dot in `s`, or `-1` when there is none.
pub open spec fn spec_find_dot(s: Seq<char>) -> int
    decreases s.len(),
{
    if s.len() == 0 {
        -1
    } else if s[0] == '.' {
        0
    } else if spec_find_dot(s.drop_first()) == -1 {
        -1
    } else {
        spec_find_dot(s.drop_first()) + 1
    }
}

proof fn lemma_find_dot_range(s: Seq<char>)
    ensures
        -1 <= spec_find_dot(s) < s.len(),
        spec_find_dot(s) >= 0 ==> s[spec_find_dot(s)] == '.',
        forall|j: int|
            0 <= j < s.len() && (spec_find_dot(s) == -1 || j < spec_find_dot(s)) ==> s[j] != '.',
    decreases s.len(),
{
    if s.len() > 0 && s[0] != '.' {
        lemma_find_dot_range(s.drop_first());
        assert forall|j: int|
            0 <= j < s.len() && (spec_find_dot(s) == -1 || j < spec_find_dot(s)) implies s[j]
            != '.' by {
            if j >= 1 {
                assert(s[j] == s.drop_first()[j - 1]);
            }
        }
    }
}

/// The dot-separated segments of `s`; a token without dots is one segment.
pub open spec fn spec_segments(s: Seq<char>) -> Seq<Seq<char>>
    decreases s.len(),
    via spec_segments_decreases
{
    let d = spec_find_dot(s);
    if d == -1 {
        seq![s]
    } else {
        seq![s.subrange(0, d)] + spec_segments(s.subrange(d + 1, s.len() as int))
    }
}

#[via_fn]
proof fn spec_segments_decreases(s: Seq<char>) {
    lemma_find_dot_range(s);
}

/// The version a canonical token denotes: the literal `workspace` (behind
/// any leading carets) is the workspace pseudo-version; any other token is
/// split on dots, and its first three segments populate major, minor and
/// patch, each leniently defaulting to zero.
pub open spec fn spec_parse(s: Seq<char>) -> SemanticVersion {
    let t = spec_strip_leading_carets(s);
    if t == "workspace"@ {
        SemanticVersion { workspace: true, major: 0, minor: 0, patch: 0 }
    } else {
        let parts = spec_segments(t);
        SemanticVersion {
            workspace: false,
            major: segment_value(parts[0]),
            minor: if parts.len() > 1 {
                segment_value(parts[1])
            } else {
                0
            },
            patch: if parts.len() > 2 {
                segment_value(parts[2])
            } else {
                0
            },
        }
    }
}

/// Index of the first dot of `s`, when there is one.
fn find_dot(s: &str) -> (r: Option<usize>)
    ensures
        match r {
            Some(i) => spec_find_dot(s@) == i && i < s@.len(),
            None => spec_find_dot(s@) == -1,
        },
{
    let n = s.unicode_len();
    let mut i: usize = 0;
    while i < n
        invariant
            0 <= i <= n,
            n == s@.len(),
            forall|j: int| 0 <= j < i ==> s@[j] != '.',
        decreases n - i,
    {
        if s.get_char(i) == '.' {
            proof {
                lemma_find_dot_range(s@);
            }
            return Some(i);
        }
        i += 1;
    }
    proof {
        lemma_find_dot_range(s@);
    }
    None
}

impl Default for SemanticVersion {
    /// The all-zero, non-workspace version.
    fn default() -> (v: Self)
        ensures
            v == (SemanticVersion { workspace: false, major: 0, minor: 0, patch: 0 }),
    {
        SemanticVersion { workspace: false, major: 0, minor: 0, patch: 0 }
    }
}

impl From<String> for SemanticVersion {
    fn from(value: String) -> (v: Self) {
        SemanticVersion::parse(value.as_str())
    }
}

impl vstd::std_specs::convert::FromSpecImpl<String> for SemanticVersion {
    open spec fn obeys_from_spec() -> bool {
        true
    }

    open spec fn from_spec(v: String) -> Self {
        spec_parse(v@)
    }
}

impl SemanticVersion {
    /// Parses a canonical token leniently, as [`spec_parse`] describes;
    /// malformed input never fails, it defaults segment-wise to zero.
    pub fn parse(token: &str) -> (v: Self)
        ensures
            v == spec_parse(token@),
    {
        let n = token.unicode_len();
        let mut start: usize = 0;
        proof {
            assert(token@.skip(0) =~= token@);
        }
        while start < n && token.get_char(start) == '^'
            invariant
                0 <= start <= n,
                n == token@.len(),
                spec_strip_leading_carets(token@) == spec_strip_leading_carets(
                    token@.skip(start as int),
                ),
            decreases n - start,
        {
            proof {
                assert(token@.skip(start as int)[0] == token@[start as int]);
                assert(token@.skip(start as int).drop_first() =~= token@.skip(start + 1));
            }
            start += 1;
        }
        proof {
            if start < n {
                assert(token@.skip(start as int)[0] == token@[start as int]);
            }
        }
        let t = token.substring_char(start, n);
        proof {
            assert(t@ =~= token@.skip(start as int));
            assert(spec_strip_leading_carets(t@) == t@);
        }
        if str_eq(t, "workspace") {
            return SemanticVersion { workspace: true, major: 0, minor: 0, patch: 0 };
        }
        let tn = t.unicode_len();
        let ghost parts = spec_segments(t@);
        match find_dot(t) {
            None => {
                let major = parse_segment(t);
                SemanticVersion { workspace: false, major, minor: 0, patch: 0 }
            },
            Some(d1) => {
                let major = parse_segment(t.substring_char(0, d1));
                let rest = t.substring_char(d1 + 1, tn);
                proof {
                    assert(rest@ =~= t@.subrange(d1 + 1, t@.len() as int));
                    assert(parts == seq![t@.subrange(0, d1 as int)] + spec_segments(rest@));
                }
                let ghost rparts = spec_segments(rest@);
                let rn = rest.unicode_len();
                match find_dot(rest) {
                    None => {
                        let minor = parse_segment(rest);
                        proof {
                            assert(parts.len() == 2 && parts[1] == rest@);
                        }
                        SemanticVersion { workspace: false, major, minor, patch: 0 }
                    },
                    Some(d2) => {
                        let minor = parse_segment(rest.substring_char(0, d2));
                        let rest2 = rest.substring_char(d2 + 1, rn);
                        proof {
                            assert(rest2@ =~= rest@.subrange(d2 + 1, rest@.len() as int));
                            assert(rparts == seq![rest@.subrange(0, d2 as int)] + spec_segments(
                                rest2@,
                            ));
                            assert(parts[1] == rest@.subrange(0, d2 as int));
                            assert(parts[2] == spec_segments(rest2@)[0]);
                        }
                        let patch = match find_dot(rest2) {
                            None => parse_segment(rest2),
                            Some(d3) => parse_segment(rest2.substring_char(0, d3)),
                        };
                        SemanticVersion { workspace: false, major, minor, patch }
                    },
                }
            },
        }
    }

    /// The canonical display form: `workspace` for the workspace
    /// pseudo-version, and `major.minor.patch` in decimal otherwise.
    pub fn to_version_string(&self) -> (r: String)
        ensures
            r@ == spec_version_string(*self),
    {
        if self.workspace {
            return String::from_str("workspace");
        }
        let mut s = usize_to_decimal(self.major);
        s.append(".");
        let m = usize_to_decimal(self.minor);
        s.append(m.as_str());
        s.append(".");
        let p = usize_to_decimal(self.patch);
        s.append(p.as_str());
        s
    }
}

/// The display form of a version, as [`SemanticVersion::to_version_string`]
/// produces it.
pub open spec fn spec_version_string(v: SemanticVersion) -> Seq<char> {
    if v.workspace {
        "workspace"@
    } else {
        dec_rep(v.major as nat) + "."@ + dec_rep(v.minor as nat) + "."@ + dec_rep(v.patch as nat)
    }
}

// --- equality and ordering ---

impl PartialEq for SemanticVersion {
    fn eq(&self, other: &Self) -> (r: bool) {
        if self.workspace != other.workspace {
            false
        } else if self.workspace {
            true
        } else {
            self.major == other.major && self.minor == other.minor && self.patch == other.patch
        }
    }
}

impl vstd::std_specs::cmp::PartialEqSpecImpl for SemanticVersion {
    open spec fn obeys_eq_spec() -> bool {
        true
    }

    open spec fn eq_spec(&self, other: &Self) -> bool {
        self.workspace == other.workspace && (self.workspace || (self.major == other.major
            && self.minor == other.minor && self.patch == other.patch))
    }
}

/// The comparator: major, then minor, then patch, numerically, with the
/// workspace flag taking no part.
pub open spec fn spec_version_cmp(a: SemanticVersion, b: SemanticVersion) -> Ordering {
    if a.major < b.major {
        Ordering::Less
    } else if a.major > b.major {
        Ordering::Greater
    } else if a.minor < b.minor {
        Ordering::Less
    } else if a.minor > b.minor {
        Ordering::Greater
    } else if a.patch < b.patch {
        Ordering::Less
    } else if a.patch > b.patch {
        Ordering::Greater
    } else {
        Ordering::Equal
    }
}

/// `a` sorts no later than `b` under the comparator.
pub open spec fn spec_version_le(a: SemanticVersion, b: SemanticVersion) -> bool {
    spec_version_cmp(a, b) != Ordering::Greater
}

impl PartialOrd for SemanticVersion {
    fn partial_cmp(&self, other: &Self) -> (r: Option<Ordering>) {
        if self.major < other.major {
            Some(Ordering::Less)
        } else if self.major > other.major {
            Some(Ordering::Greater)
        } else if self.minor < other.minor {
            Some(Ordering::Less)
        } else if self.minor > other.minor {
            Some(Ordering::Greater)
        } else if self.patch < other.patch {
            Some(Ordering::Less)
        } else if self.patch > other.patch {
            Some(Ordering::Greater)
        } else {
            Some(Ordering::Equal)
        }
    }
}

impl vstd::std_specs::cmp::PartialOrdSpecImpl for SemanticVersion {
    open spec fn obeys_partial_cmp_spec() -> bool {
        true
    }

    open spec fn partial_cmp_spec(&self, other: &Self) -> Option<Ordering> {
        Some(spec_version_cmp(*self, *other))
    }
}

/// Law: the comparator is a strict weak ordering over versions. `Less` is
/// irreflexive, asymmetric and transitive, and incomparability (comparing
/// `Equal`) is an equivalence relation.
pub proof fn lemma_version_cmp_strict_weak(
    a: SemanticVersion,
    b: SemanticVersion,
    c: SemanticVersion,
)
    ensures
        spec_version_cmp(a, a) == Ordering::Equal,
        spec_version_cmp(a, b) == Ordering::Less ==> spec_version_cmp(b, a) == Ordering::Greater,
        spec_version_cmp(a, b) == Ordering::Less && spec_version_cmp(b, c) == Ordering::Less
            ==> spec_version_cmp(a, c) == Ordering::Less,
        spec_version_cmp(a, b) == Ordering::Equal && spec_version_cmp(b, c) == Ordering::Equal
            ==> spec_version_cmp(a, c) == Ordering::Equal,
{
}

/// The order the report lists version strings in: by the comparator over
/// their parses, with equal parses tied lexicographically on the strings,
/// so that versions mixing workspace and numeric forms still sort
/// deterministically.
pub open spec fn spec_version_string_le(a: Seq<char>, b: Seq<char>) -> bool {
    if spec_version_cmp(spec_parse(a), spec_parse(b)) == Ordering::Equal {
        lex_le(a, b)
    } else {
        spec_version_le(spec_parse(a), spec_parse(b))
    }
}

/// The report order on version strings is total.
pub proof fn lemma_version_string_le_total(a: Seq<char>, b: Seq<char>)
    ensures
        spec_version_string_le(a, b) || spec_version_string_le(b, a),
{
    crate::text::lemma_lex_le_total(a, b);
}

/// The report order on version strings is transitive.
pub proof fn lemma_version_string_le_transitive(a: Seq<char>, b: Seq<char>, c: Seq<char>)
    requires
        spec_version_string_le(a, b),
        spec_version_string_le(b, c),
    ensures
        spec_version_string_le(a, c),
{
    if spec_version_cmp(spec_parse(a), spec_parse(b)) == Ordering::Equal && spec_version_cmp(
        spec_parse(b),
        spec_parse(c),
    ) == Ordering::Equal {
        crate::text::lemma_lex_le_transitive(a, b, c);
    }
}

/// Decides [`spec_version_string_le`] on two version strings.
pub fn version_string_le(a: &String, b: &String) -> (r: bool)
    ensures
        r == spec_version_string_le(a@, b@),
{
    let va = SemanticVersion::parse(a.as_str());
    let vb = SemanticVersion::parse(b.as_str());
    if va.major == vb.major && va.minor == vb.minor && va.patch == vb.patch {
        crate::text::str_lex_le(a.as_str(), b.as_str())
    } else {
        match va.partial_cmp(&vb) {
            Some(Ordering::Greater) => false,
            _ => true,
        }
    }
}

} // verus!
