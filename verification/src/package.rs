//! Semantic versions of packages and the requirements that dependencies put on
//! them.

use vstd::prelude::*;
use crate::execution_mode::starts_with;
use crate::text::{chars_of, decimal_text, digit_char, push_char, push_str, push_string, string_of};

verus! {

/// Package metadata
#[derive(Debug, Clone)]
pub struct PackageMetadata {
    pub name: String,
    pub version: String,
    pub description: Option<String>,
    pub authors: Vec<String>,
    pub license: Option<String>,
    pub repository: Option<String>,
    pub keywords: Vec<String>,
    pub categories: Vec<String>,
}

/// A text without its leading double quotes.
pub open spec fn trim_start_quotes(s: Seq<char>) -> Seq<char>
    decreases s.len(),
{
    if s.len() > 0 && s[0] == '"' {
        trim_start_quotes(s.drop_first())
    } else {
        s
    }
}

/// A text without its trailing double quotes.
pub open spec fn trim_end_quotes(s: Seq<char>) -> Seq<char>
    decreases s.len(),
{
    if s.len() > 0 && s.last() == '"' {
        trim_end_quotes(s.drop_last())
    } else {
        s
    }
}

/// A text without the double quotes at either end (`str::trim_matches('"')`).
pub open spec fn trim_quotes(s: Seq<char>) -> Seq<char> {
    trim_end_quotes(trim_start_quotes(s))
}

/// The lines of a text as `str::lines` reads them, save perhaps an empty last
/// one: the pieces between line feeds, each but the last without one carriage
/// return before its line feed.
pub open spec fn text_lines(s: Seq<char>) -> Seq<Seq<char>> {
    let pieces = split_on(s, '\n');
    Seq::new(
        pieces.len(),
        |i: int|
            if i < pieces.len() - 1 && pieces[i].len() > 0 && pieces[i].last() == '\r' {
                pieces[i].drop_last()
            } else {
                pieces[i]
            },
    )
}

/// The name, version and description that manifest lines set, a later line
/// overriding an earlier one: `name = ` and `version = ` lines set those, a
/// `description = ` line sets the description, each value without its quotes;
/// the name is `unknown` and the version `0.0.0` until set.
pub open spec fn manifest_fields(lines: Seq<Seq<char>>) -> (Seq<char>, Seq<char>, Option<Seq<char>>)
    decreases lines.len(),
{
    if lines.len() == 0 {
        ("unknown"@, "0.0.0"@, None)
    } else {
        let (name, version, description) = manifest_fields(lines.drop_last());
        let line = lines.last();
        if starts_with(line, "name = "@) {
            (trim_quotes(line.skip(7)), version, description)
        } else if starts_with(line, "version = "@) {
            (name, trim_quotes(line.skip(10)), description)
        } else if starts_with(line, "description = "@) {
            (name, version, Some(trim_quotes(line.skip(14))))
        } else {
            (name, version, description)
        }
    }
}

/// The characters of `cs` from `start` to `end` without the double quotes at
/// either end.
fn trimmed_between(cs: &Vec<char>, start: usize, end: usize) -> (s: String)
    requires
        start <= end <= cs@.len(),
    ensures
        s@ == trim_quotes(cs@.subrange(start as int, end as int)),
{
    let ghost whole = cs@.subrange(start as int, end as int);
    let mut lo = start;
    while lo < end && cs[lo] == '"'
        invariant
            start <= lo <= end,
            end <= cs@.len(),
            trim_start_quotes(whole) == trim_start_quotes(cs@.subrange(lo as int, end as int)),
        decreases end - lo,
    {
        proof {
            assert(cs@.subrange(lo as int, end as int).drop_first() =~= cs@.subrange(
                lo + 1,
                end as int,
            ));
        }
        lo = lo + 1;
    }
    let ghost front = cs@.subrange(lo as int, end as int);
    proof {
        assert(trim_start_quotes(whole) == front);
    }
    let mut hi = end;
    while hi > lo && cs[hi - 1] == '"'
        invariant
            lo <= hi <= end,
            end <= cs@.len(),
            trim_end_quotes(front) == trim_end_quotes(cs@.subrange(lo as int, hi as int)),
        decreases hi - lo,
    {
        proof {
            assert(cs@.subrange(lo as int, hi as int).drop_last() =~= cs@.subrange(
                lo as int,
                hi - 1,
            ));
        }
        hi = hi - 1;
    }
    let mut s = String::new();
    let mut k = lo;
    while k < hi
        invariant
            lo <= k <= hi,
            hi <= cs@.len(),
            s@ == cs@.subrange(lo as int, k as int),
        decreases hi - k,
    {
        push_char(&mut s, cs[k]);
        proof {
            assert(s@ =~= cs@.subrange(lo as int, k + 1));
        }
        k = k + 1;
    }
    s
}

/// Whether `line` starts with `prefix`.
fn line_starts_with(line: &Vec<char>, end: usize, prefix: &str) -> (b: bool)
    requires
        end <= line@.len(),
    ensures
        b == starts_with(line@.take(end as int), prefix@),
{
    let p = chars_of(prefix);
    if p.len() > end {
        return false;
    }
    let mut i: usize = 0;
    while i < p.len()
        invariant
            i <= p@.len(),
            p@ == prefix@,
            p@.len() <= end,
            end <= line@.len(),
            forall|j: int| 0 <= j < i ==> line@[j] == p@[j],
        decreases p@.len() - i,
    {
        if line[i] != p[i] {
            proof {
                assert(line@.take(end as int).subrange(0, p@.len() as int)[i as int] != p@[i as int]);
            }
            return false;
        }
        i = i + 1;
    }
    proof {
        assert(line@.take(end as int).subrange(0, p@.len() as int) =~= p@);
    }
    true
}

/// Reads the metadata of a manifest (see [`manifest_fields`]); the other
/// metadata stay empty.
pub fn parse_manifest_metadata(content: &str) -> (m: PackageMetadata)
    ensures
        m.name@ == manifest_fields(text_lines(content@)).0,
        m.version@ == manifest_fields(text_lines(content@)).1,
        match manifest_fields(text_lines(content@)).2 {
            Some(d) => m.description matches Some(x) && x@ == d,
            None => m.description is None,
        },
        m.authors@.len() == 0 && m.keywords@.len() == 0 && m.categories@.len() == 0,
        m.license is None && m.repository is None,
{
    proof {
        reveal_strlit("unknown");
        reveal_strlit("0.0.0");
        reveal_strlit("name = ");
        reveal_strlit("version = ");
        reveal_strlit("description = ");
    }
    let cs = chars_of(content);
    let pieces = split_chars(&cs, '\n');
    let ghost lines = text_lines(content@);
    let mut name = "unknown".to_owned();
    let mut version = "0.0.0".to_owned();
    let mut description: Option<String> = None;
    let mut i: usize = 0;
    proof {
        assert(lines.take(0) =~= Seq::<Seq<char>>::empty());
    }
    while i < pieces.len()
        invariant
            i <= pieces@.len(),
            pieces@.len() == split_on(content@, '\n').len(),
            forall|k: int| 0 <= k < pieces@.len() ==> (#[trigger] pieces@[k])@ == split_on(
                content@,
                '\n',
            )[k],
            lines == text_lines(content@),
            lines.len() == pieces@.len(),
            name@ == manifest_fields(lines.take(i as int)).0,
            version@ == manifest_fields(lines.take(i as int)).1,
            match manifest_fields(lines.take(i as int)).2 {
                Some(d) => description matches Some(x) && x@ == d,
                None => description is None,
            },
        decreases pieces@.len() - i,
    {
        proof {
            reveal_strlit("name = ");
            reveal_strlit("version = ");
            reveal_strlit("description = ");
        }
        let piece = &pieces[i];
        let mut end = piece.len();
        if i + 1 < pieces.len() && end > 0 && piece[end - 1] == '\r' {
            end = end - 1;
        }
        let ghost line = piece@.take(end as int);
        proof {
            assert(line =~= lines[i as int]);
            assert(lines.take(i + 1).drop_last() =~= lines.take(i as int));
            assert(lines.take(i + 1).last() == line);
        }
        if line_starts_with(piece, end, "name = ") {
            name = trimmed_between(piece, 7, end);
            proof {
                assert(piece@.subrange(7, end as int) =~= line.skip(7));
            }
        } else if line_starts_with(piece, end, "version = ") {
            version = trimmed_between(piece, 10, end);
            proof {
                assert(piece@.subrange(10, end as int) =~= line.skip(10));
            }
        } else if line_starts_with(piece, end, "description = ") {
            description = Some(trimmed_between(piece, 14, end));
            proof {
                assert(piece@.subrange(14, end as int) =~= line.skip(14));
            }
        }
        i = i + 1;
    }
    proof {
        assert(lines.take(pieces@.len() as int) =~= lines);
    }
    PackageMetadata {
        name,
        version,
        description,
        authors: Vec::new(),
        license: None,
        repository: None,
        keywords: Vec::new(),
        categories: Vec::new(),
    }
}

/// Semantic version representation
#[derive(Debug, Clone, PartialEq, Eq, Structural)]
pub struct SemVer {
    pub major: u32,
    pub minor: u32,
    pub patch: u32,
}

/// Errors of package management.
#[derive(Debug, Clone)]
pub enum PackageError {
    NoCompatibleVersion,
    PerformanceRequirementsNotMet,
    BuildFailed(String),
    DependencyResolutionFailed(String),
    CacheError(String),
    BenchmarkFailed(String),
}

/// How a package error is written out.
pub open spec fn package_error_text(e: PackageError) -> Seq<char> {
    match e {
        PackageError::NoCompatibleVersion => "No compatible version found"@,
        PackageError::PerformanceRequirementsNotMet => "Performance requirements not met"@,
        PackageError::BuildFailed(m) => "Build failed: "@ + m@,
        PackageError::DependencyResolutionFailed(m) => "Dependency resolution failed: "@ + m@,
        PackageError::CacheError(m) => "Cache error: "@ + m@,
        PackageError::BenchmarkFailed(m) => "Benchmark execution failed: "@ + m@,
    }
}

impl PackageError {
    /// How the error is written out (see [`package_error_text`]).
    pub fn to_string(&self) -> (s: String)
        ensures
            s@ == package_error_text(*self),
    {
        proof {
            reveal_strlit("No compatible version found");
            reveal_strlit("Performance requirements not met");
            reveal_strlit("Build failed: ");
            reveal_strlit("Dependency resolution failed: ");
            reveal_strlit("Cache error: ");
            reveal_strlit("Benchmark execution failed: ");
        }
        let mut s = String::new();
        match self {
            PackageError::NoCompatibleVersion => push_str(&mut s, "No compatible version found"),
            PackageError::PerformanceRequirementsNotMet => {
                push_str(&mut s, "Performance requirements not met")
            },
            PackageError::BuildFailed(m) => {
                push_str(&mut s, "Build failed: ");
                push_string(&mut s, m);
            },
            PackageError::DependencyResolutionFailed(m) => {
                push_str(&mut s, "Dependency resolution failed: ");
                push_string(&mut s, m);
            },
            PackageError::CacheError(m) => {
                push_str(&mut s, "Cache error: ");
                push_string(&mut s, m);
            },
            PackageError::BenchmarkFailed(m) => {
                push_str(&mut s, "Benchmark execution failed: ");
                push_string(&mut s, m);
            },
        }
        s
    }
}

/// The pieces of `s` between occurrences of `c`, as `str::split` gives them: one
/// more piece than there are occurrences, empty pieces included.
pub open spec fn split_on(s: Seq<char>, c: char) -> Seq<Seq<char>>
    decreases s.len(),
{
    if s.len() == 0 {
        seq![Seq::empty()]
    } else {
        let r = split_on(s.drop_last(), c);
        if s.last() == c {
            r.push(Seq::empty())
        } else {
            r.update(r.len() - 1, r.last().push(s.last()))
        }
    }
}

/// Whether a character is a decimal digit.
pub open spec fn is_digit(c: char) -> bool {
    '0' <= c && c <= '9'
}

/// The value of a string of decimal digits.
pub open spec fn decimal_value(s: Seq<char>) -> nat
    decreases s.len(),
{
    if s.len() == 0 {
        0
    } else {
        10 * decimal_value(s.drop_last()) + (s.last() as nat - '0' as nat) as nat
    }
}

/// The digits of an unsigned number's text: what follows an optional `+`.
pub open spec fn unsigned_digits(s: Seq<char>) -> Seq<char> {
    if s.len() > 0 && s[0] == '+' {
        s.drop_first()
    } else {
        s
    }
}

/// The `u32` that a text denotes, as `str::parse::<u32>` reads it: an optional
/// `+`, then at least one decimal digit and nothing else, of a value that fits.
pub open spec fn u32_of_text(s: Seq<char>) -> Option<u32> {
    let d = unsigned_digits(s);
    if d.len() > 0 && (forall|i: int| 0 <= i < d.len() ==> is_digit(#[trigger] d[i]))
        && decimal_value(d) <= u32::MAX {
        Some(decimal_value(d) as u32)
    } else {
        None
    }
}

/// The version that a text denotes: three numbers separated by dots.
pub open spec fn semver_of_text(s: Seq<char>) -> Option<SemVer> {
    let parts = split_on(s, '.');
    if parts.len() == 3 && u32_of_text(parts[0]) is Some && u32_of_text(parts[1]) is Some
        && u32_of_text(parts[2]) is Some {
        Some(
            SemVer {
                major: u32_of_text(parts[0])->0,
                minor: u32_of_text(parts[1])->0,
                patch: u32_of_text(parts[2])->0,
            },
        )
    } else {
        None
    }
}

/// Why a text is not a version: the wrong number of parts, or the first part
/// that is no number.
pub open spec fn semver_error_text(s: Seq<char>) -> Seq<char> {
    let parts = split_on(s, '.');
    if parts.len() != 3 {
        "Invalid semver format: "@ + s
    } else if u32_of_text(parts[0]) is None {
        "Invalid major version: "@ + parts[0]
    } else if u32_of_text(parts[1]) is None {
        "Invalid minor version: "@ + parts[1]
    } else {
        "Invalid patch version: "@ + parts[2]
    }
}

/// The pieces of `cs` between occurrences of `sep`.
fn split_chars(cs: &Vec<char>, sep: char) -> (parts: Vec<Vec<char>>)
    ensures
        parts@.len() == split_on(cs@, sep).len(),
        forall|k: int| 0 <= k < parts@.len() ==> (#[trigger] parts@[k])@ == split_on(cs@, sep)[k],
{
    let mut parts: Vec<Vec<char>> = Vec::new();
    parts.push(Vec::new());
    let mut i: usize = 0;
    proof {
        assert(cs@.take(0) =~= Seq::<char>::empty());
        assert(split_on(Seq::<char>::empty(), sep) =~= seq![Seq::<char>::empty()]);
    }
    while i < cs.len()
        invariant
            i <= cs@.len(),
            parts@.len() == split_on(cs@.take(i as int), sep).len(),
            parts@.len() >= 1,
            forall|k: int|
                0 <= k < parts@.len() ==> (#[trigger] parts@[k])@ == split_on(
                    cs@.take(i as int),
                    sep,
                )[k],
        decreases cs@.len() - i,
    {
        let ghost before = cs@.take(i as int);
        let ghost r = split_on(before, sep);
        let ghost after = cs@.take(i + 1);
        proof {
            assert(after.drop_last() =~= before);
            assert(after.last() == cs@[i as int]);
        }
        let c = cs[i];
        let ghost parts0 = parts@;
        if c == sep {
            parts.push(Vec::new());
            proof {
                assert forall|k: int| 0 <= k < parts@.len() implies (#[trigger] parts@[k])@
                    == split_on(after, sep)[k] by {
                    if k < parts@.len() - 1 {
                        assert(parts@[k] == parts0[k]);
                    }
                }
            }
        } else {
            let mut last = parts.pop().unwrap();
            last.push(c);
            parts.push(last);
            proof {
                assert forall|k: int| 0 <= k < parts@.len() implies (#[trigger] parts@[k])@
                    == split_on(after, sep)[k] by {
                    if k < parts@.len() - 1 {
                        assert(r[k] == split_on(after, sep)[k]);
                    } else {
                        assert(parts@[k]@ =~= r.last().push(c));
                    }
                }
            }
        }
        i = i + 1;
    }
    proof {
        assert(cs@.take(cs@.len() as int) =~= cs@);
    }
    parts
}

/// The value of a string of digits never falls short of that of a prefix.
proof fn lemma_decimal_prefix(d: Seq<char>, k: int)
    requires
        0 <= k <= d.len(),
    ensures
        decimal_value(d.take(k)) <= decimal_value(d),
    decreases d.len(),
{
    if k < d.len() {
        lemma_decimal_prefix(d.drop_last(), k);
        assert(d.drop_last().take(k) =~= d.take(k));
    } else {
        assert(d.take(k) =~= d);
    }
}

/// The number that `cs` denotes, as `str::parse::<u32>` reads it.
fn u32_from_chars(cs: &Vec<char>) -> (r: Option<u32>)
    ensures
        r == u32_of_text(cs@),
{
    let n = cs.len();
    let mut start: usize = 0;
    if n > 0 && cs[0] == '+' {
        start = 1;
    }
    let ghost d = unsigned_digits(cs@);
    proof {
        assert(d =~= cs@.subrange(start as int, n as int));
    }
    if start == n {
        return None;
    }
    let mut value: u64 = 0;
    let mut i: usize = start;
    proof {
        assert(d.take(0) =~= Seq::<char>::empty());
    }
    while i < n
        invariant
            start <= i <= n,
            n == cs@.len(),
            start < n,
            d == cs@.subrange(start as int, n as int),
            d == unsigned_digits(cs@),
            value == decimal_value(d.take(i - start)),
            value <= u32::MAX,
            forall|j: int| 0 <= j < i - start ==> is_digit(#[trigger] d[j]),
        decreases n - i,
    {
        let c = cs[i];
        proof {
            assert(d[i - start] == c);
        }
        if !('0' <= c && c <= '9') {
            proof {
                assert(!is_digit(d[i - start]));
            }
            return None;
        }
        let digit_value = (c as u32 - '0' as u32) as u64;
        value = value * 10 + digit_value;
        proof {
            let t = d.take(i + 1 - start);
            assert(t.drop_last() =~= d.take(i - start));
            assert(t.last() == c);
            assert(value == decimal_value(t));
        }
        if value > 0xFFFF_FFFF {
            proof {
                if forall|j: int| 0 <= j < d.len() ==> is_digit(#[trigger] d[j]) {
                    lemma_decimal_prefix(d, i + 1 - start);
                }
            }
            return None;
        }
        i = i + 1;
    }
    proof {
        assert(d.take(n - start) =~= d);
    }
    Some(value as u32)
}

/// Reads a semantic version: three numbers separated by dots.
fn semver_from_chars(cs: &Vec<char>) -> (r: Result<SemVer, PackageError>)
    ensures
        r is Ok <==> semver_of_text(cs@) is Some,
        r matches Ok(v) ==> semver_of_text(cs@) == Some(v),
        r matches Err(e) ==> e matches PackageError::DependencyResolutionFailed(m) && m@
            == semver_error_text(cs@),
{
    proof {
        reveal_strlit("Invalid semver format: ");
        reveal_strlit("Invalid major version: ");
        reveal_strlit("Invalid minor version: ");
        reveal_strlit("Invalid patch version: ");
    }
    let parts = split_chars(cs, '.');
    if parts.len() != 3 {
        let mut m = String::new();
        push_str(&mut m, "Invalid semver format: ");
        let whole = string_of(cs.as_slice());
        push_string(&mut m, &whole);
        return Err(PackageError::DependencyResolutionFailed(m));
    }
    let ghost p = split_on(cs@, '.');
    proof {
        assert(parts@[0]@ == p[0]);
        assert(parts@[1]@ == p[1]);
        assert(parts@[2]@ == p[2]);
    }
    let major = match u32_from_chars(&parts[0]) {
        Some(v) => v,
        None => {
            let mut m = String::new();
            push_str(&mut m, "Invalid major version: ");
            let part = string_of(parts[0].as_slice());
            push_string(&mut m, &part);
            return Err(PackageError::DependencyResolutionFailed(m));
        },
    };
    let minor = match u32_from_chars(&parts[1]) {
        Some(v) => v,
        None => {
            let mut m = String::new();
            push_str(&mut m, "Invalid minor version: ");
            let part = string_of(parts[1].as_slice());
            push_string(&mut m, &part);
            return Err(PackageError::DependencyResolutionFailed(m));
        },
    };
    let patch = match u32_from_chars(&parts[2]) {
        Some(v) => v,
        None => {
            let mut m = String::new();
            push_str(&mut m, "Invalid patch version: ");
            let part = string_of(parts[2].as_slice());
            push_string(&mut m, &part);
            return Err(PackageError::DependencyResolutionFailed(m));
        },
    };
    Ok(SemVer { major, minor, patch })
}

/// Parses a semantic version string: `major.minor.patch`, each as
/// `str::parse::<u32>` reads it; otherwise says which part is wrong.
pub fn parse_semver(version: &str) -> (r: Result<SemVer, PackageError>)
    ensures
        r is Ok <==> semver_of_text(version@) is Some,
        r matches Ok(v) ==> semver_of_text(version@) == Some(v),
        r matches Err(e) ==> e matches PackageError::DependencyResolutionFailed(m) && m@
            == semver_error_text(version@),
{
    let cs = chars_of(version);
    semver_from_chars(&cs)
}

/// How a version is written: its three numbers in decimal, separated by dots.
pub open spec fn version_text(v: SemVer) -> Seq<char> {
    decimal_text(v.major as nat) + seq!['.'] + decimal_text(v.minor as nat) + seq!['.']
        + decimal_text(v.patch as nat)
}

/// Whether a text holds no occurrence of `c`.
pub open spec fn free_of(s: Seq<char>, c: char) -> bool {
    forall|i: int| 0 <= i < s.len() ==> s[i] != c
}

/// Splitting gives at least one piece.
proof fn lemma_split_nonempty(s: Seq<char>, c: char)
    ensures
        split_on(s, c).len() >= 1,
    decreases s.len(),
{
    if s.len() > 0 {
        lemma_split_nonempty(s.drop_last(), c);
    }
}

/// A text without the separator is a single piece.
proof fn lemma_split_free(s: Seq<char>, c: char)
    requires
        free_of(s, c),
    ensures
        split_on(s, c) == seq![s],
    decreases s.len(),
{
    if s.len() > 0 {
        assert(free_of(s.drop_last(), c));
        lemma_split_free(s.drop_last(), c);
        assert(s.drop_last().push(s.last()) =~= s);
    } else {
        assert(s =~= Seq::<char>::empty());
    }
}

/// Appending text without the separator lengthens the last piece.
proof fn lemma_split_append_free(x: Seq<char>, y: Seq<char>, c: char)
    requires
        free_of(y, c),
    ensures
        split_on(x + y, c) == split_on(x, c).update(
            split_on(x, c).len() - 1,
            split_on(x, c).last() + y,
        ),
    decreases y.len(),
{
    lemma_split_nonempty(x, c);
    if y.len() == 0 {
        assert(x + y =~= x);
        assert(split_on(x, c).last() + y =~= split_on(x, c).last());
        assert(split_on(x, c).update(split_on(x, c).len() - 1, split_on(x, c).last()) =~= split_on(
            x,
            c,
        ));
    } else {
        let y1 = y.drop_last();
        assert(free_of(y1, c));
        lemma_split_append_free(x, y1, c);
        assert((x + y).drop_last() =~= x + y1);
        assert((x + y).last() == y.last());
        lemma_split_nonempty(x + y1, c);
        let r = split_on(x + y1, c);
        assert(r.last() == split_on(x, c).last() + y1);
        assert((split_on(x, c).last() + y1).push(y.last()) =~= split_on(x, c).last() + y);
        assert(split_on(x + y, c) == r.update(r.len() - 1, r.last().push(y.last())));
        assert(split_on(x + y, c) =~= split_on(x, c).update(
            split_on(x, c).len() - 1,
            split_on(x, c).last() + y,
        ));
    }
}

/// A separator at the end opens an empty piece.
proof fn lemma_split_push_sep(x: Seq<char>, c: char)
    ensures
        split_on(x + seq![c], c) == split_on(x, c).push(Seq::empty()),
{
    assert((x + seq![c]).drop_last() =~= x);
}

/// A digit's character is a digit of that value.
proof fn lemma_digit_char(d: nat)
    requires
        d < 10,
    ensures
        is_digit(digit_char(d)),
        digit_char(d) as nat - '0' as nat == d,
{
    assert('0' as nat == 48);
    assert('9' as nat == 57);
    if d == 0 {
    } else if d == 1 {
        assert('1' as nat == 49);
    } else if d == 2 {
        assert('2' as nat == 50);
    } else if d == 3 {
        assert('3' as nat == 51);
    } else if d == 4 {
        assert('4' as nat == 52);
    } else if d == 5 {
        assert('5' as nat == 53);
    } else if d == 6 {
        assert('6' as nat == 54);
    } else if d == 7 {
        assert('7' as nat == 55);
    } else if d == 8 {
        assert('8' as nat == 56);
    }
}

/// The decimal text of a number: digits only, never a dot, and of its value.
proof fn lemma_decimal_text(n: nat)
    ensures
        decimal_text(n).len() >= 1,
        forall|i: int| 0 <= i < decimal_text(n).len() ==> is_digit(#[trigger] decimal_text(n)[i]),
        decimal_value(decimal_text(n)) == n,
    decreases n,
{
    let t = decimal_text(n);
    if n < 10 {
        lemma_digit_char(n);
        assert(t.drop_last() =~= Seq::<char>::empty());
        assert(decimal_value(t) == 10 * decimal_value(t.drop_last()) + (t.last() as nat - '0' as nat) as nat);
    } else {
        lemma_digit_char(n % 10);
        lemma_decimal_text(n / 10);
        let u = decimal_text(n / 10);
        assert(t.drop_last() =~= u);
        assert(t.last() == digit_char(n % 10));
        assert(decimal_value(t) == 10 * decimal_value(u) + (t.last() as nat - '0' as nat) as nat);
        assert(n == 10 * (n / 10) + n % 10);
        assert forall|i: int| 0 <= i < t.len() implies is_digit(#[trigger] t[i]) by {
            if i < u.len() {
                assert(t[i] == u[i]);
            }
        }
    }
}

/// The text of a number reads back as that number.
proof fn lemma_u32_text(n: u32)
    ensures
        u32_of_text(decimal_text(n as nat)) == Some(n),
        free_of(decimal_text(n as nat), '.'),
{
    lemma_decimal_text(n as nat);
    let t = decimal_text(n as nat);
    assert(is_digit(t[0]));
    assert(unsigned_digits(t) == t);
    assert forall|i: int| 0 <= i < t.len() implies t[i] != '.' by {
        assert(is_digit(t[i]));
    }
}

/// A version written out reads back as itself.
pub proof fn lemma_version_text_round_trip(v: SemVer)
    ensures
        semver_of_text(version_text(v)) == Some(v),
{
    let a = decimal_text(v.major as nat);
    let b = decimal_text(v.minor as nat);
    let c = decimal_text(v.patch as nat);
    lemma_u32_text(v.major);
    lemma_u32_text(v.minor);
    lemma_u32_text(v.patch);
    lemma_split_free(a, '.');
    lemma_split_push_sep(a, '.');
    lemma_split_append_free(a + seq!['.'], b, '.');
    assert(split_on(a + seq!['.'] + b, '.') =~= seq![a, b]);
    lemma_split_push_sep(a + seq!['.'] + b, '.');
    lemma_split_append_free(a + seq!['.'] + b + seq!['.'], c, '.');
    assert(split_on(version_text(v), '.') =~= seq![a, b, c]);
}

/// How two versions differ: the difference of the first numbers that differ
/// (major, then minor, then patch), each taken as an `i32` and subtracted with
/// wrapping; zero for equal versions.
pub open spec fn version_difference(a: SemVer, b: SemVer) -> i32 {
    if a.major != b.major {
        vstd::wrapping::i32_specs::wrapping_sub(a.major as i32, b.major as i32)
    } else if a.minor != b.minor {
        vstd::wrapping::i32_specs::wrapping_sub(a.minor as i32, b.minor as i32)
    } else {
        vstd::wrapping::i32_specs::wrapping_sub(a.patch as i32, b.patch as i32)
    }
}

/// Compare two semantic versions (see [`version_difference`]).
pub fn compare_versions(a: &SemVer, b: &SemVer) -> (r: i32)
    ensures
        r == version_difference(*a, *b),
{
    if a.major != b.major {
        return (a.major as i32).wrapping_sub(b.major as i32);
    }
    if a.minor != b.minor {
        return (a.minor as i32).wrapping_sub(b.minor as i32);
    }
    (a.patch as i32).wrapping_sub(b.patch as i32)
}

/// The kinds of version requirement, by the prefix of the requirement.
#[derive(Debug, Clone, Copy, PartialEq, Eq, Structural)]
pub enum RequirementKind {
    /// `^`: the same major version, at least the given one
    Caret,
    /// `~`: the same major and minor version, at least the given one
    Tilde,
    /// `>=`
    AtLeast,
    /// `>`
    Above,
    /// `<=`
    AtMost,
    /// `<`
    Below,
    /// No prefix: exactly the given version
    Exact,
}

/// The kind of a requirement and the version text after its prefix.
pub open spec fn requirement_parts(spec: Seq<char>) -> (RequirementKind, Seq<char>) {
    if spec.len() >= 1 && spec[0] == '^' {
        (RequirementKind::Caret, spec.skip(1))
    } else if spec.len() >= 1 && spec[0] == '~' {
        (RequirementKind::Tilde, spec.skip(1))
    } else if spec.len() >= 2 && spec[0] == '>' && spec[1] == '=' {
        (RequirementKind::AtLeast, spec.skip(2))
    } else if spec.len() >= 1 && spec[0] == '>' {
        (RequirementKind::Above, spec.skip(1))
    } else if spec.len() >= 2 && spec[0] == '<' && spec[1] == '=' {
        (RequirementKind::AtMost, spec.skip(2))
    } else if spec.len() >= 1 && spec[0] == '<' {
        (RequirementKind::Below, spec.skip(1))
    } else {
        (RequirementKind::Exact, spec)
    }
}

/// Whether version `v` meets a requirement of kind `kind` on version `req`.
pub open spec fn meets_requirement(kind: RequirementKind, v: SemVer, req: SemVer) -> bool {
    match kind {
        RequirementKind::Caret => if req.major > 0 {
            v.major == req.major && (v.minor > req.minor || (v.minor == req.minor && v.patch
                >= req.patch))
        } else if req.minor > 0 {
            v.major == 0 && v.minor == req.minor && v.patch >= req.patch
        } else {
            v.major == 0 && v.minor == 0 && v.patch == req.patch
        },
        RequirementKind::Tilde => v.major == req.major && v.minor == req.minor && v.patch
            >= req.patch,
        RequirementKind::AtLeast => version_difference(v, req) >= 0,
        RequirementKind::Above => version_difference(v, req) > 0,
        RequirementKind::AtMost => version_difference(v, req) <= 0,
        RequirementKind::Below => version_difference(v, req) < 0,
        RequirementKind::Exact => v == req,
    }
}

/// Whether the version text `version` meets the requirement text `spec`; false
/// when either does not read as a version.
pub open spec fn version_compatible(version: Seq<char>, spec: Seq<char>) -> bool {
    let (kind, rest) = requirement_parts(spec);
    match (semver_of_text(version), semver_of_text(rest)) {
        (Some(v), Some(req)) => meets_requirement(kind, v, req),
        _ => false,
    }
}

/// Check if version string matches dependency specification using proper semver
/// (see [`version_compatible`]): a caret requirement allows changes that keep
/// the leftmost non-zero part, a tilde one changes of the patch number.
pub fn is_version_compatible(version: &str, spec: &str) -> (b: bool)
    ensures
        b == version_compatible(version@, spec@),
{
    let parsed_version = match parse_semver(version) {
        Ok(v) => v,
        Err(_) => return false,
    };
    let mut cs = chars_of(spec);
    let n = cs.len();
    let kind = if n >= 1 && cs[0] == '^' {
        RequirementKind::Caret
    } else if n >= 1 && cs[0] == '~' {
        RequirementKind::Tilde
    } else if n >= 2 && cs[0] == '>' && cs[1] == '=' {
        RequirementKind::AtLeast
    } else if n >= 1 && cs[0] == '>' {
        RequirementKind::Above
    } else if n >= 2 && cs[0] == '<' && cs[1] == '=' {
        RequirementKind::AtMost
    } else if n >= 1 && cs[0] == '<' {
        RequirementKind::Below
    } else {
        RequirementKind::Exact
    };
    let prefix: usize = match kind {
        RequirementKind::AtLeast | RequirementKind::AtMost => 2,
        RequirementKind::Exact => 0,
        _ => 1,
    };
    let rest = cs.split_off(prefix);
    proof {
        assert(rest@ =~= requirement_parts(spec@).1);
    }
    let spec_parsed = match semver_from_chars(&rest) {
        Ok(v) => v,
        Err(_) => return false,
    };
    let v = &parsed_version;
    let req = &spec_parsed;
    match kind {
        RequirementKind::Caret => if req.major > 0 {
            v.major == req.major && (v.minor > req.minor || (v.minor == req.minor && v.patch
                >= req.patch))
        } else if req.minor > 0 {
            v.major == 0 && v.minor == req.minor && v.patch >= req.patch
        } else {
            v.major == 0 && v.minor == 0 && v.patch == req.patch
        },
        RequirementKind::Tilde => v.major == req.major && v.minor == req.minor && v.patch
            >= req.patch,
        RequirementKind::AtLeast => compare_versions(v, req) >= 0,
        RequirementKind::Above => compare_versions(v, req) > 0,
        RequirementKind::AtMost => compare_versions(v, req) <= 0,
        RequirementKind::Below => compare_versions(v, req) < 0,
        RequirementKind::Exact => v.major == req.major && v.minor == req.minor && v.patch
            == req.patch,
    }
}

/// A version meets the caret, tilde, at-least and at-most requirements written
/// on itself.
pub proof fn lemma_version_meets_own_requirements(version: Seq<char>)
    requires
        semver_of_text(version) is Some,
    ensures
        version_compatible(version, seq!['^'] + version),
        version_compatible(version, seq!['~'] + version),
        version_compatible(version, seq!['>', '='] + version),
        version_compatible(version, seq!['<', '='] + version),
{
    assert((seq!['^'] + version).skip(1) =~= version);
    assert((seq!['~'] + version).skip(1) =~= version);
    assert((seq!['>', '='] + version).skip(2) =~= version);
    assert((seq!['<', '='] + version).skip(2) =~= version);
}

/// Whether version `a` stands at or below version `b`: by the major number,
/// then the minor, then the patch.
pub open spec fn version_at_or_below(a: SemVer, b: SemVer) -> bool {
    ||| a.major < b.major
    ||| a.major == b.major && a.minor < b.minor
    ||| a.major == b.major && a.minor == b.minor && a.patch <= b.patch
}

/// Whether each number of a version is at most `i32::MAX`, the range in which
/// versions are compared.
pub open spec fn numbers_fit_i32(v: SemVer) -> bool {
    v.major <= i32::MAX && v.minor <= i32::MAX && v.patch <= i32::MAX
}

/// The ordering requirements order versions by major, then minor, then patch
/// number: a readable version meets `<=r` exactly when it stands at or below
/// `r`, `>=r` when at or above it, `<r` when below and `>r` when above it (for
/// numbers up to `i32::MAX`).
pub proof fn lemma_ordering_requirements(version: Seq<char>, req: Seq<char>)
    requires
        semver_of_text(version) matches Some(v) && numbers_fit_i32(v),
        semver_of_text(req) matches Some(r) && numbers_fit_i32(r),
    ensures
        version_compatible(version, seq!['<', '='] + req) == version_at_or_below(
            semver_of_text(version)->Some_0,
            semver_of_text(req)->Some_0,
        ),
        version_compatible(version, seq!['>', '='] + req) == version_at_or_below(
            semver_of_text(req)->Some_0,
            semver_of_text(version)->Some_0,
        ),
        !(req.len() > 0 && req[0] == '=') ==> version_compatible(version, seq!['<'] + req) == (
        version_at_or_below(semver_of_text(version)->Some_0, semver_of_text(req)->Some_0)
            && semver_of_text(version)->Some_0 != semver_of_text(req)->Some_0),
        !(req.len() > 0 && req[0] == '=') ==> version_compatible(version, seq!['>'] + req) == (
        version_at_or_below(semver_of_text(req)->Some_0, semver_of_text(version)->Some_0)
            && semver_of_text(version)->Some_0 != semver_of_text(req)->Some_0),
{
    let v = semver_of_text(version)->Some_0;
    let r = semver_of_text(req)->Some_0;
    assert((seq!['<', '='] + req).skip(2) =~= req);
    assert((seq!['>', '='] + req).skip(2) =~= req);
    assert((seq!['<'] + req).skip(1) =~= req);
    assert((seq!['>'] + req).skip(1) =~= req);
    if req.len() > 0 {
        assert((seq!['<'] + req)[1] == req[0]);
        assert((seq!['>'] + req)[1] == req[0]);
    }
    assert(v.major as i32 == v.major && r.major as i32 == r.major);
    assert(v.minor as i32 == v.minor && r.minor as i32 == r.minor);
    assert(v.patch as i32 == v.patch && r.patch as i32 == r.patch);
}

/// A caret requirement keeps the leftmost non-zero number of the required
/// version and allows any version at or above it that keeps it; a tilde
/// requirement keeps the major and minor numbers; a bare version allows only
/// itself.
pub proof fn lemma_caret_tilde_exact_requirements(version: Seq<char>, req: Seq<char>)
    requires
        semver_of_text(version) is Some,
        semver_of_text(req) is Some,
        !(req.len() > 0 && (req[0] == '^' || req[0] == '~' || req[0] == '>' || req[0] == '<')),
    ensures
        ({
            let v = semver_of_text(version)->Some_0;
            let r = semver_of_text(req)->Some_0;
            &&& r.major > 0 ==> version_compatible(version, seq!['^'] + req) == (v.major == r.major
                && version_at_or_below(r, v))
            &&& r.major == 0 && r.minor > 0 ==> version_compatible(version, seq!['^'] + req) == (
            v.major == 0 && v.minor == r.minor && version_at_or_below(r, v))
            &&& r.major == 0 && r.minor == 0 ==> version_compatible(version, seq!['^'] + req) == (v
                == r)
            &&& version_compatible(version, seq!['~'] + req) == (v.major == r.major && v.minor
                == r.minor && version_at_or_below(r, v))
            &&& version_compatible(version, req) == (v == r)
        }),
{
    assert((seq!['^'] + req).skip(1) =~= req);
    assert((seq!['~'] + req).skip(1) =~= req);
}

/// A tilde requirement is stricter than a caret requirement on the same
/// version, unless that version is below 0.1.0: whatever meets `~r` meets `^r`.
pub proof fn lemma_tilde_within_caret(version: Seq<char>, req: Seq<char>)
    requires
        version_compatible(version, seq!['~'] + req),
        semver_of_text(req) matches Some(r) && (r.major > 0 || r.minor > 0),
    ensures
        version_compatible(version, seq!['^'] + req),
{
    assert((seq!['~'] + req).skip(1) =~= req);
    assert((seq!['^'] + req).skip(1) =~= req);
}

/// What the package manager reads of a registry's version record: the `version`
/// field where it is a string; the `features` field where it is an array, each
/// element where it is a string; and, of its `compatibility` field, the
/// `min_compiler_version` where it is a string and the `supported_targets`
/// where they are an array, each element where it is a string.
pub struct VersionRecord {
    pub version: Option<String>,
    pub features: Option<Vec<Option<String>>>,
    pub min_compiler_version: Option<String>,
    pub supported_targets: Option<Vec<Option<String>>>,
}

/// What a package version declares it works with: the least compiler version,
/// the targets it supports, the features it requires and the packages it
/// conflicts with.
pub struct CompatibilityInfo {
    pub min_compiler_version: String,
    pub supported_targets: Vec<String>,
    pub required_features: Vec<String>,
    pub conflicts: Vec<String>,
}

/// The strings among a record's features, in order.
pub open spec fn feature_names(fs: Seq<Option<String>>) -> Seq<String>
    decreases fs.len(),
{
    if fs.len() == 0 {
        Seq::empty()
    } else {
        let rest = feature_names(fs.drop_last());
        match fs.last() {
            Some(f) => rest.push(f),
            None => rest,
        }
    }
}

/// The features a record lists (none where it has no array of them).
pub open spec fn record_features(r: VersionRecord) -> Seq<String> {
    match r.features {
        Some(fs) => feature_names(fs@),
        None => Seq::empty(),
    }
}

/// The strings of a list, in order, skipping its entries that are not strings.
fn strings_present(list: &Vec<Option<String>>) -> (out: Vec<String>)
    ensures
        out@ == feature_names(list@),
{
    let mut out: Vec<String> = Vec::new();
    let mut i: usize = 0;
    while i < list.len()
        invariant
            i <= list@.len(),
            out@ == feature_names(list@.take(i as int)),
        decreases list@.len() - i,
    {
        proof {
            assert(list@.take(i + 1).drop_last() =~= list@.take(i as int));
        }
        match &list[i] {
            Some(f) => {
                out.push(f.clone());
            },
            None => {},
        }
        i = i + 1;
    }
    proof {
        assert(list@.take(list@.len() as int) =~= list@);
    }
    out
}

/// The compatibility a registry's version record declares: its least compiler
/// version, "0.1.0" where it gives none; its supported targets, just "x86_64"
/// where it gives no array of them; its features as the required ones; and no
/// conflicts.
pub fn parse_compatibility_info(record: &VersionRecord) -> (info: CompatibilityInfo)
    ensures
        match record.min_compiler_version {
            Some(v) => info.min_compiler_version == v,
            None => info.min_compiler_version@ == "0.1.0"@,
        },
        match record.supported_targets {
            Some(ts) => info.supported_targets@ == feature_names(ts@),
            None => info.supported_targets@.len() == 1 && info.supported_targets@[0]@ == "x86_64"@,
        },
        info.required_features@ == record_features(*record),
        info.conflicts@.len() == 0,
{
    let min_compiler_version = match &record.min_compiler_version {
        Some(v) => v.clone(),
        None => "0.1.0".to_owned(),
    };
    let supported_targets = match &record.supported_targets {
        Some(list) => strings_present(list),
        None => {
            let mut targets: Vec<String> = Vec::new();
            targets.push("x86_64".to_owned());
            targets
        },
    };
    let required_features = match &record.features {
        Some(list) => strings_present(list),
        None => Vec::new(),
    };
    CompatibilityInfo { min_compiler_version, supported_targets, required_features, conflicts: Vec::new() }
}

/// The version and the feature names of a registry's version record; a missing
/// version is a dependency resolution failure ("Missing version field").
pub fn parse_version_record(record: &VersionRecord) -> (r: Result<(String, Vec<String>), PackageError>)
    ensures
        match record.version {
            Some(v) => r matches Ok((found, features)) && found == v && features@ == record_features(
                *record,
            ),
            None => r matches Err(PackageError::DependencyResolutionFailed(m)) && m@
                == "Missing version field"@,
        },
{
    let version = match &record.version {
        Some(v) => v.clone(),
        None => {
            let m = "Missing version field".to_owned();
            return Err(PackageError::DependencyResolutionFailed(m));
        },
    };
    let features = match &record.features {
        Some(list) => strings_present(list),
        None => Vec::new(),
    };
    Ok((version, features))
}

} // verus!
