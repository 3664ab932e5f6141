use vstd::prelude::*;
use redis::InfoDict;
use vstd::string::StrSliceExecFns;

verus! {

/// A server version: three non-negative integers read from `major.minor.patch`.
#[derive(Debug, Clone, Copy, PartialEq, Eq, Structural)]
pub struct RedisVersion {
    pub major: usize,
    pub minor: usize,
    pub patch: usize,
}

/// Why a non-empty version string was refused.
#[derive(Debug, Clone, Copy, PartialEq, Eq, Structural)]
pub enum VersionError {
    /// The string is not three parts separated by two dots.
    WrongShape,
    /// A part is empty, holds a non-digit, or does not fit in `usize`.
    BadNumber,
}

pub open spec fn is_digit(c: char) -> bool {
    '0' <= c && c <= '9'
}

/// The value of a sequence of decimal digits, most significant first.
pub open spec fn digits_value(s: Seq<char>) -> nat
    decreases s.len(),
{
    if s.len() == 0 {
        0
    } else {
        digits_value(s.drop_last()) * 10 + (s.last() as nat - '0' as nat) as nat
    }
}

/// `s` is a non-empty run of digits whose value fits in `usize`.
pub open spec fn is_number(s: Seq<char>) -> bool {
    &&& s.len() > 0
    &&& forall|k: int| 0 <= k < s.len() ==> is_digit(#[trigger] s[k])
    &&& digits_value(s) <= usize::MAX
}

/// `s` holds dots at `d1 < d2` and nowhere else.
pub open spec fn dots_at(s: Seq<char>, d1: int, d2: int) -> bool {
    &&& 0 <= d1 < d2 < s.len()
    &&& s[d1] == '.'
    &&& s[d2] == '.'
    &&& forall|k: int| 0 <= k < s.len() && k != d1 && k != d2 ==> #[trigger] s[k] != '.'
}

pub open spec fn has_two_dots(s: Seq<char>) -> bool {
    exists|d1: int, d2: int| #[trigger] dots_at(s, d1, d2)
}

/// The two dot positions of a string that has exactly two dots.
pub open spec fn dot_pair(s: Seq<char>) -> (int, int)
    recommends
        has_two_dots(s),
{
    choose|d1: int, d2: int| #[trigger] dots_at(s, d1, d2)
}

pub open spec fn first_dot(s: Seq<char>) -> int {
    dot_pair(s).0
}

pub open spec fn second_dot(s: Seq<char>) -> int {
    dot_pair(s).1
}

/// The three parts of a string with exactly two dots.
pub open spec fn part(s: Seq<char>, k: int) -> Seq<char> {
    if k == 0 {
        s.subrange(0, first_dot(s))
    } else if k == 1 {
        s.subrange(first_dot(s) + 1, second_dot(s))
    } else {
        s.subrange(second_dot(s) + 1, s.len() as int)
    }
}

/// What a version string denotes: `None` when it is not three numbers
/// separated by dots.
pub open spec fn version_of(s: Seq<char>) -> Option<RedisVersion> {
    if has_two_dots(s) && is_number(part(s, 0)) && is_number(part(s, 1)) && is_number(part(s, 2)) {
        Some(
            RedisVersion {
                major: digits_value(part(s, 0)) as usize,
                minor: digits_value(part(s, 1)) as usize,
                patch: digits_value(part(s, 2)) as usize,
            },
        )
    } else {
        None
    }
}

proof fn lemma_prefix_value_le(s: Seq<char>, i: int)
    requires
        0 <= i <= s.len(),
        forall|k: int| 0 <= k < s.len() ==> is_digit(#[trigger] s[k]),
    ensures
        digits_value(s.subrange(0, i)) <= digits_value(s),
    decreases s.len() - i,
{
    if i < s.len() {
        lemma_prefix_value_le(s, i + 1);
        let t = s.subrange(0, i + 1);
        assert(t.drop_last() =~= s.subrange(0, i));
        assert(is_digit(t.last()));
    } else {
        assert(s.subrange(0, i) =~= s);
    }
}

/// Reads the characters of `s` in `[from, to)` as a decimal number.
fn parse_decimal(s: &str, from: usize, to: usize) -> (r: Option<usize>)
    requires
        from <= to <= s@.len(),
    ensures
        is_number(s@.subrange(from as int, to as int)) ==> r == Some(
            digits_value(s@.subrange(from as int, to as int)) as usize,
        ),
        !is_number(s@.subrange(from as int, to as int)) ==> r is None,
{
    let ghost whole = s@.subrange(from as int, to as int);
    if from == to {
        return None;
    }
    let mut acc: usize = 0;
    let mut i: usize = from;
    while i < to
        invariant
            from <= i <= to <= s@.len(),
            whole == s@.subrange(from as int, to as int),
            forall|k: int| from <= k < i ==> is_digit(#[trigger] s@[k]),
            acc as nat == digits_value(s@.subrange(from as int, i as int)),
        decreases to - i,
    {
        let c = s.get_char(i);
        if !('0' <= c && c <= '9') {
            proof {
                assert(whole[i - from] == c);
            }
            return None;
        }
        let d: usize = (c as u32 - '0' as u32) as usize;
        let ghost next = s@.subrange(from as int, i + 1);
        proof {
            assert(next.drop_last() =~= s@.subrange(from as int, i as int));
            assert(next.last() == c);
        }
        if acc > (usize::MAX - d) / 10 {
            proof {
                assert(digits_value(next) > usize::MAX) by (nonlinear_arith)
                    requires
                        digits_value(next) == acc * 10 + d,
                        acc > (usize::MAX - d) / 10,
                        d <= 9,
                ;
                if forall|k: int| 0 <= k < whole.len() ==> is_digit(#[trigger] whole[k]) {
                    lemma_prefix_value_le(whole, i + 1 - from);
                    assert(whole.subrange(0, i + 1 - from) =~= next);
                }
            }
            return None;
        }
        proof {
            assert(acc * 10 + d <= usize::MAX) by (nonlinear_arith)
                requires
                    acc <= (usize::MAX - d) / 10,
                    d <= 9,
            ;
        }
        acc = acc * 10 + d;
        i = i + 1;
    }
    proof {
        assert(s@.subrange(from as int, i as int) =~= whole);
        assert forall|k: int| 0 <= k < whole.len() implies is_digit(#[trigger] whole[k]) by {
            assert(whole[k] == s@[from + k]);
        };
    }
    Some(acc)
}

/// The first position in `[from, to)` that holds a dot, or `to`.
fn find_dot(s: &str, from: usize, to: usize) -> (r: usize)
    requires
        from <= to <= s@.len(),
    ensures
        from <= r <= to,
        forall|k: int| from <= k < r ==> #[trigger] s@[k] != '.',
        r < to ==> s@[r as int] == '.',
{
    let mut i: usize = from;
    while i < to
        invariant
            from <= i <= to <= s@.len(),
            forall|k: int| from <= k < i ==> #[trigger] s@[k] != '.',
        decreases to - i,
    {
        if s.get_char(i) == '.' {
            return i;
        }
        i = i + 1;
    }
    i
}

/// What reading a version string gives: nothing for an empty string, the
/// version for three dot-separated numbers, and otherwise the reason it was
/// refused.
pub open spec fn version_result(s: Seq<char>) -> Result<Option<RedisVersion>, VersionError> {
    if s.len() == 0 {
        Ok(None)
    } else if !has_two_dots(s) {
        Err(VersionError::WrongShape)
    } else if version_of(s) is Some {
        Ok(version_of(s))
    } else {
        Err(VersionError::BadNumber)
    }
}

/// Reads a version string of the form `major.minor.patch`.
///
/// An empty string means that the server gave no version: `Ok(None)`.
/// Anything else must be exactly three dot-separated decimal numbers.
pub fn parse_version(s: &str) -> (r: Result<Option<RedisVersion>, VersionError>)
    ensures
        r == version_result(s@),
{
    let n = s.unicode_len();
    if n == 0 {
        return Ok(None);
    }
    let d1 = find_dot(s, 0, n);
    if d1 == n {
        proof {
            if has_two_dots(s@) {
                let (a, b) = choose|a: int, b: int| dots_at(s@, a, b);
                assert(s@[a] == '.');
            }
        }
        return Err(VersionError::WrongShape);
    }
    let d2 = find_dot(s, d1 + 1, n);
    if d2 == n {
        proof {
            if has_two_dots(s@) {
                let (a, b) = choose|a: int, b: int| dots_at(s@, a, b);
                assert(s@[a] == '.');
                assert(s@[b] == '.');
            }
        }
        return Err(VersionError::WrongShape);
    }
    let d3 = find_dot(s, d2 + 1, n);
    if d3 < n {
        proof {
            if has_two_dots(s@) {
                let (a, b) = choose|a: int, b: int| dots_at(s@, a, b);
                assert(s@[d1 as int] == '.');
                assert(s@[d2 as int] == '.');
                assert(s@[d3 as int] == '.');
            }
        }
        return Err(VersionError::WrongShape);
    }
    proof {
        assert(dots_at(s@, d1 as int, d2 as int));
        assert forall|a: int, b: int| dots_at(s@, a, b) implies a == d1 && b == d2 by {
            assert(s@[a] == '.');
            assert(s@[b] == '.');
        };
        assert(first_dot(s@) == d1);
        assert(second_dot(s@) == d2);
    }
    let major = parse_decimal(s, 0, d1);
    let minor = parse_decimal(s, d1 + 1, d2);
    let patch = parse_decimal(s, d2 + 1, n);
    match (major, minor, patch) {
        (Some(major), Some(minor), Some(patch)) => Ok(Some(RedisVersion { major, minor, patch })),
        _ => Err(VersionError::BadNumber),
    }
}

/// What the server reported for the version field of its metadata: `None`
/// when the field is absent.
pub fn version_from_field(field: Option<String>) -> (r: Result<Option<RedisVersion>, VersionError>)
    ensures
        field is None ==> r == Ok::<Option<RedisVersion>, VersionError>(None),
        field matches Some(s) ==> r == version_result(s@),
{
    match field {
        None => Ok(None),
        Some(s) => parse_version(s.as_str()),
    }
}

#[verifier::external_type_specification]
#[verifier::external_body]
pub struct ExInfoDict(InfoDict);

/// What an info dictionary holds: each key mapped to its value text.
pub uninterp spec fn info_fields(d: InfoDict) -> Map<Seq<char>, Seq<char>>;

/// Relies on redis::InfoDict::get::<String>: the dictionary is filled only
/// by `InfoDict::new`, which stores every value as a status reply, and a
/// status reply always reads as its text; so the result is the value under
/// `key`, or `None` when the key is absent.
#[verifier::external_body]
fn info_string(info: &InfoDict, key: &str) -> (r: Option<String>)
    ensures
        r is Some <==> info_fields(*info).contains_key(key@),
        r matches Some(s) ==> s@ == info_fields(*info)[key@],
{
    info.get::<String>(key)
}

/// What the version field of an info dictionary gives: nothing when the
/// field is absent, else what [`parse_version`] makes of its text.
pub open spec fn info_version(fields: Map<Seq<char>, Seq<char>>) -> Result<
    Option<RedisVersion>,
    VersionError,
> {
    if fields.contains_key("redis_version"@) {
        version_result(fields["redis_version"@])
    } else {
        Ok(None)
    }
}

/// Finds the server version in the reply to the metadata query: the entry
/// `redis_version`, read by [`parse_version`]; a missing entry gives
/// `Ok(None)`.
pub fn version_from_info(info: &InfoDict) -> (r: Result<Option<RedisVersion>, VersionError>)
    ensures
        r == info_version(info_fields(*info)),
{
    let field = info_string(info, "redis_version");
    version_from_field(field)
}

/// The record layout that a server uses in its slow-log replies.
#[derive(Debug, Clone, Copy, PartialEq, Eq, Structural)]
pub enum Schema {
    /// id, timestamp, duration, command.
    Legacy,
    /// id, timestamp, duration, command, client address, client name.
    Extended,
}

/// The major version that decides the schema: zero when it is unknown.
pub open spec fn major_of(version: Option<RedisVersion>) -> usize {
    match version {
        Some(v) => v.major,
        None => 0,
    }
}

pub open spec fn schema_of_major(major: usize) -> Schema {
    if major >= 4 {
        Schema::Extended
    } else {
        Schema::Legacy
    }
}

/// The number of fields of one record under a schema.
pub open spec fn schema_arity(schema: Schema) -> nat {
    match schema {
        Schema::Legacy => 4,
        Schema::Extended => 6,
    }
}

/// The schema for a server of the given major version.
pub fn schema_for_major(major: usize) -> (r: Schema)
    ensures
        r == schema_of_major(major),
{
    if major >= 4 {
        Schema::Extended
    } else {
        Schema::Legacy
    }
}

/// The schema for a probed version; an unknown version counts as major 0.
pub fn schema_for(version: Option<RedisVersion>) -> (r: Schema)
    ensures
        r == schema_of_major(major_of(version)),
        version is None ==> r == Schema::Legacy,
{
    let major: usize = match version {
        Some(v) => v.major,
        None => 0,
    };
    schema_for_major(major)
}

} // verus!
