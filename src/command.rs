//! What the commands decide: argument bytes, the export to call, how a call's
//! outcome is judged, and lookups by pattern.
use vstd::prelude::*;
use vstd::string::StringExecFns;
use crate::registry::{TypeRegistry, push_chars, join_path, same_text};

verus! {

/// The value of a hexadecimal digit, upper or lower case.
pub open spec fn hex_digit(c: char) -> Option<u8> {
    if '0' <= c && c <= '9' {
        Some((c as u32 - '0' as u32) as u8)
    } else if 'a' <= c && c <= 'f' {
        Some((c as u32 - 'a' as u32 + 10) as u8)
    } else if 'A' <= c && c <= 'F' {
        Some((c as u32 - 'A' as u32 + 10) as u8)
    } else {
        None
    }
}

/// Text that is an even number of hexadecimal digits.
pub open spec fn is_hex_text(s: Seq<char>) -> bool {
    s.len() % 2 == 0 && forall|i: int| 0 <= i < s.len() ==> (#[trigger] hex_digit(s[i])) is Some
}

/// The bytes that hexadecimal text spells, two digits each, high digit first.
pub open spec fn hex_bytes(s: Seq<char>) -> Seq<u8> {
    Seq::new(s.len() / 2, |i: int| (hex_digit(s[2 * i])->0 * 16 + hex_digit(s[2 * i + 1])->0) as u8)
}

/// Relies on `hex::decode`: it succeeds exactly on an even number of hex
/// digits of either case, and turns each pair into one byte, high digit first.
#[verifier::external_body]
fn hex_decode(text: &Vec<char>) -> (r: Option<Vec<u8>>)
    ensures
        r is Some <==> is_hex_text(text@),
        r matches Some(b) ==> b@ == hex_bytes(text@),
{
    let s: String = text.iter().collect();
    hex::decode(s).ok()
}

/// `s` without any number of leading `0x`.
pub open spec fn strip_0x(s: Seq<char>) -> Seq<char>
    decreases s.len(),
{
    if s.len() >= 2 && s[0] == '0' && s[1] == 'x' {
        strip_0x(s.subrange(2, s.len() as int))
    } else {
        s
    }
}

/// Unicode white space, as `char::is_whitespace` has it.
pub open spec fn is_space(c: char) -> bool {
    ('\u{9}' <= c && c <= '\u{d}') || c == ' ' || c == '\u{85}' || c == '\u{a0}' || c == '\u{1680}'
        || ('\u{2000}' <= c && c <= '\u{200a}') || c == '\u{2028}' || c == '\u{2029}' || c == '\u{202f}'
        || c == '\u{205f}' || c == '\u{3000}'
}

/// `s` without leading white space.
pub open spec fn trim_start(s: Seq<char>) -> Seq<char>
    decreases s.len(),
{
    if s.len() > 0 && is_space(s[0]) {
        trim_start(s.drop_first())
    } else {
        s
    }
}

/// `s` without trailing white space.
pub open spec fn trim_end(s: Seq<char>) -> Seq<char>
    decreases s.len(),
{
    if s.len() > 0 && is_space(s.last()) {
        trim_end(s.drop_last())
    } else {
        s
    }
}

fn space(c: char) -> (r: bool)
    ensures
        r == is_space(c),
{
    ('\u{9}' <= c && c <= '\u{d}') || c == ' ' || c == '\u{85}' || c == '\u{a0}' || c == '\u{1680}'
        || ('\u{2000}' <= c && c <= '\u{200a}') || c == '\u{2028}' || c == '\u{2029}' || c == '\u{202f}'
        || c == '\u{205f}' || c == '\u{3000}'
}

/// The characters of `s` from `a` to `b`.
fn char_range(s: &Vec<char>, a: usize, b: usize) -> (r: Vec<char>)
    requires
        a <= b <= s@.len(),
    ensures
        r@ == s@.subrange(a as int, b as int),
{
    let mut out: Vec<char> = Vec::new();
    let mut i: usize = a;
    while i < b
        invariant
            a <= i <= b <= s@.len(),
            out@ == s@.subrange(a as int, i as int),
        decreases b - i,
    {
        out.push(s[i]);
        i = i + 1;
        assert(out@ =~= s@.subrange(a as int, i as int));
    }
    out
}

/// The characters of `text` after any leading `0x`.
fn without_0x(text: &str) -> (r: Vec<char>)
    ensures
        r@ == strip_0x(text@),
{
    let mut all: Vec<char> = Vec::new();
    push_chars(&mut all, text);
    assert(all@ =~= text@);
    let n = all.len();
    let mut i: usize = 0;
    assert(all@.subrange(0, n as int) =~= all@);
    while n - i >= 2 && all[i] == '0' && all[i + 1] == 'x'
        invariant
            i <= n == all@.len(),
            strip_0x(all@) == strip_0x(all@.subrange(i as int, n as int)),
        decreases n - i,
    {
        assert(all@.subrange(i as int, n as int).subrange(2, (n - i) as int) =~= all@.subrange(i + 2, n as int));
        i = i + 2;
    }
    assert(all@.subrange(0, n as int) =~= all@);
    char_range(&all, i, n)
}

/// `s` without leading or trailing white space.
fn trimmed(s: &Vec<char>) -> (r: Vec<char>)
    ensures
        r@ == trim_end(trim_start(s@)),
{
    let n = s.len();
    let mut a: usize = 0;
    assert(s@.subrange(0, n as int) =~= s@);
    while a < n && space(s[a])
        invariant
            a <= n == s@.len(),
            trim_start(s@) == trim_start(s@.subrange(a as int, n as int)),
        decreases n - a,
    {
        assert(s@.subrange(a as int, n as int).drop_first() =~= s@.subrange(a + 1, n as int));
        a = a + 1;
    }
    proof {
        assert(s@.subrange(0, n as int) =~= s@);
    }
    let mut b: usize = n;
    while b > a && space(s[b - 1])
        invariant
            a <= b <= n == s@.len(),
            trim_start(s@) == s@.subrange(a as int, n as int),
            trim_end(s@.subrange(a as int, n as int)) == trim_end(s@.subrange(a as int, b as int)),
        decreases b,
    {
        assert(s@.subrange(a as int, b as int).drop_last() =~= s@.subrange(a as int, b - 1));
        b = b - 1;
    }
    char_range(s, a, b)
}

/// The bytes of a call argument: hex text with any leading `0x` and
/// surrounding white space removed; `None` when that is not hex.
pub fn parse_call_arg(text: &str) -> (r: Option<Vec<u8>>)
    ensures
        r is Some <==> is_hex_text(trim_end(trim_start(strip_0x(text@)))),
        r matches Some(b) ==> b@ == hex_bytes(trim_end(trim_start(strip_0x(text@)))),
{
    let chars = without_0x(text);
    let t = trimmed(&chars);
    hex_decode(&t)
}

/// The bytes of data to decode: hex text with any leading `0x` removed;
/// `None` when that is not hex.
pub fn parse_data_arg(text: &str) -> (r: Option<Vec<u8>>)
    ensures
        r is Some <==> is_hex_text(strip_0x(text@)),
        r matches Some(b) ==> b@ == hex_bytes(strip_0x(text@)),
{
    let chars = without_0x(text);
    hex_decode(&chars)
}

/// The name of the export that serves `call` of `api`: `{api}_{call}`.
pub fn method_name(api: &str, call: &str) -> (r: String)
    ensures
        r@ == api@ + seq!['_'] + call@,
{
    let mut s = String::from_str(api);
    s.append("_");
    s.append(call);
    proof {
        reveal_strlit("_");
    }
    s
}

/// Why a call into the module failed.
#[derive(Debug, Clone, PartialEq)]
pub enum ExecutionError {
    /// The module has no export of that name.
    ExportNotFound,
    /// The module aborted execution, with the executor's message.
    Trap(String),
    /// A stand-in for a missing host function was called.
    UnresolvedImportInvoked,
    /// The executor ran a native equivalent instead of the module's code.
    NativeFallbackDetected,
}

/// Judges what the executor reported: a result is accepted only when the
/// module's own code ran.
pub fn call_outcome(result: Result<Vec<u8>, ExecutionError>, used_native: bool) -> (r: Result<Vec<u8>, ExecutionError>)
    ensures
        used_native ==> r == Err::<Vec<u8>, ExecutionError>(ExecutionError::NativeFallbackDetected),
        !used_native ==> r == result,
{
    if used_native {
        Err(ExecutionError::NativeFallbackDetected)
    } else {
        result
    }
}

/// The calls whose output has a decoding of its own.
#[derive(Debug, Clone, Copy, PartialEq, Eq, Structural)]
pub enum WellKnown {
    /// `Metadata` `metadata_versions`: a list of `u32`.
    MetadataVersions,
    /// `Metadata` `metadata`: the metadata envelope.
    Metadata,
    /// `Core` `version`: the runtime version record.
    CoreVersion,
    /// Anything else.
    Other,
}

/// Which well-known call `call` of `api` is.
pub fn well_known(api: &str, call: &str) -> (r: WellKnown)
    ensures
        r == (if api@ == "Metadata"@ && call@ == "metadata_versions"@ {
            WellKnown::MetadataVersions
        } else if api@ == "Metadata"@ && call@ == "metadata"@ {
            WellKnown::Metadata
        } else if api@ == "Core"@ && call@ == "version"@ {
            WellKnown::CoreVersion
        } else {
            WellKnown::Other
        }),
{
    proof {
        reveal_strlit("Metadata");
        reveal_strlit("Core");
        reveal_strlit("metadata");
        reveal_strlit("metadata_versions");
        assert("Metadata"@.len() != "Core"@.len());
        assert("metadata"@.len() != "metadata_versions"@.len());
    }
    if same_text(api, "Metadata") {
        if same_text(call, "metadata_versions") {
            WellKnown::MetadataVersions
        } else if same_text(call, "metadata") {
            WellKnown::Metadata
        } else {
            WellKnown::Other
        }
    } else if same_text(api, "Core") && same_text(call, "version") {
        WellKnown::CoreVersion
    } else {
        WellKnown::Other
    }
}

/// Whether `pattern`, compiled as a case-insensitive regular expression,
/// matches somewhere in `text`; `None` when the pattern does not compile.
pub uninterp spec fn regex_finds(pattern: Seq<char>, text: Seq<char>) -> Option<bool>;

/// Relies on `regex::RegexBuilder` with `case_insensitive(true)` and
/// `Regex::is_match`: whether the compiled pattern matches in the text, or
/// `None` when it does not compile.
#[verifier::external_body]
fn pattern_finds(pattern: &str, text: &Vec<char>) -> (r: Option<bool>)
    ensures
        r == regex_finds(pattern@, text@),
{
    let hay: String = text.iter().collect();
    regex::RegexBuilder::new(pattern).case_insensitive(true).build().ok().map(|re| re.is_match(&hay))
}

/// Why a lookup by pattern failed.
#[derive(Debug, Clone, PartialEq)]
pub enum PatternError {
    /// The pattern is not a regular expression.
    InvalidPattern,
    NotFound,
    /// More than one entry matched; their ids, in registry order.
    Ambiguous(Vec<u32>),
}

/// The ids of the first `n` entries whose joined path the pattern matches,
/// or `None` when the pattern does not compile.
pub open spec fn pattern_matches(reg: &TypeRegistry, pattern: Seq<char>, n: int) -> Option<Seq<u32>>
    decreases n,
{
    if n <= 0 {
        Some(Seq::empty())
    } else {
        match pattern_matches(reg, pattern, n - 1) {
            None => None,
            Some(before) => match regex_finds(pattern, reg.types@[n - 1].path_text()) {
                None => None,
                Some(true) => Some(before.push(reg.types@[n - 1].id)),
                Some(false) => Some(before),
            },
        }
    }
}

impl TypeRegistry {
    /// The ids of all entries whose joined path the pattern matches
    /// (case-insensitive), in registry order.
    pub fn find_by_pattern(&self, pattern: &str) -> (r: Result<Vec<u32>, PatternError>)
        ensures
            match pattern_matches(self, pattern@, self.types@.len() as int) {
                None => r == Err::<Vec<u32>, PatternError>(PatternError::InvalidPattern),
                Some(ids) => r matches Ok(v) && v@ == ids,
            },
    {
        let mut found: Vec<u32> = Vec::new();
        let mut i: usize = 0;
        while i < self.types.len()
            invariant
                i <= self.types@.len(),
                pattern_matches(self, pattern@, i as int) == Some(found@),
            decreases self.types@.len() - i,
        {
            let text = join_path(&self.types[i].path);
            match pattern_finds(pattern, &text) {
                None => {
                    proof {
                        lemma_pattern_none(self, pattern@, i as int + 1, self.types@.len() as int);
                    }
                    return Err(PatternError::InvalidPattern);
                },
                Some(true) => found.push(self.types[i].id),
                Some(false) => {},
            }
            i = i + 1;
        }
        Ok(found)
    }

    /// The one entry whose joined path the pattern matches; no match is
    /// `NotFound`, several are `Ambiguous` with all their ids.
    pub fn resolve_by_pattern(&self, pattern: &str) -> (r: Result<u32, PatternError>)
        ensures
            match pattern_matches(self, pattern@, self.types@.len() as int) {
                None => r == Err::<u32, PatternError>(PatternError::InvalidPattern),
                Some(ids) => if ids.len() == 0 {
                    r == Err::<u32, PatternError>(PatternError::NotFound)
                } else if ids.len() == 1 {
                    r == Ok::<u32, PatternError>(ids[0])
                } else {
                    r matches Err(PatternError::Ambiguous(v)) && v@ == ids
                },
            },
    {
        match self.find_by_pattern(pattern) {
            Err(e) => Err(e),
            Ok(ids) => {
                if ids.len() == 0 {
                    Err(PatternError::NotFound)
                } else if ids.len() == 1 {
                    Ok(ids[0])
                } else {
                    Err(PatternError::Ambiguous(ids))
                }
            },
        }
    }
}

proof fn lemma_pattern_none(reg: &TypeRegistry, pattern: Seq<char>, a: int, n: int)
    requires
        0 < a <= n,
        pattern_matches(reg, pattern, a) is None,
    ensures
        pattern_matches(reg, pattern, n) is None,
    decreases n - a,
{
    if n > a {
        lemma_pattern_none(reg, pattern, a, n - 1);
    }
}

/// The content fingerprint that `blake2_256` gives for `b`.
pub uninterp spec fn blake2_256_of(b: Seq<u8>) -> Seq<u8>;

/// Relies on `sp_crypto_hashing::blake2_256`: a 32-byte digest of the bytes.
#[verifier::external_body]
fn blake2_256(code: &[u8]) -> (r: Vec<u8>)
    ensures
        r@ == blake2_256_of(code@),
        r@.len() == 32,
{
    sp_crypto_hashing::blake2_256(code).to_vec()
}

/// The fingerprint by which the executor knows a module's code.
pub fn module_fingerprint(code: &[u8]) -> (r: Vec<u8>)
    ensures
        r@ == blake2_256_of(code@),
        r@.len() == 32,
{
    blake2_256(code)
}

/// Decode data with a specific registry type.
pub struct DecodeCmd {
    /// The type to decode the data as: the end of its path.
    pub as_typ: String,
    /// The data, as hex.
    pub data: String,
}

/// Why command arguments were refused.
#[derive(Debug, Clone, Copy, PartialEq, Eq, Structural)]
pub enum ArgsError {
    /// No type was named.
    TypeRequired,
}

impl DecodeCmd {
    /// Refuses an empty type name.
    pub fn check_args(&self) -> (r: Result<(), ArgsError>)
        ensures
            r is Err <==> self.as_typ@.len() == 0,
            r is Err ==> r == Err::<(), ArgsError>(ArgsError::TypeRequired),
    {
        if self.as_typ.as_str().unicode_len() == 0 {
            return Err(ArgsError::TypeRequired);
        }
        Ok(())
    }
}

/// Call an export of the module without arguments.
pub struct ExecuteCmd {
    pub api: String,
    pub call: String,
    /// Print output as hex.
    pub hex: bool,
}

/// What `metadata show` lists.
#[derive(Debug, Clone, Copy, PartialEq, Eq, Structural)]
pub enum What {
    /// The types of the registry.
    Types,
}

/// Show types in the metadata.
pub struct ShowCmd {
    pub what: What,
    /// A regular expression that the listed paths match.
    pub pattern: Option<String>,
    /// Show the definition of each listed type.
    pub details: bool,
}

} // verus!
