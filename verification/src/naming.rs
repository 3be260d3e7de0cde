use vstd::prelude::*;
use vstd::string::*;

verus! {

/// Relies on the standard library's `String::push`: it appends the given
/// character to the end of the string.
pub assume_specification[ String::push ](s: &mut String, ch: char)
    ensures
        final(s)@ == old(s)@.push(ch),
;

/// How many trailing characters of the sanitized, reversed URL go into the
/// cache filename stem.
pub const HASH_TAIL_CHARS: usize = 32;

/// One lowercase hexadecimal digit.
pub open spec fn spec_hex_digit(d: nat) -> char {
    if d == 0 {
        '0'
    } else if d == 1 {
        '1'
    } else if d == 2 {
        '2'
    } else if d == 3 {
        '3'
    } else if d == 4 {
        '4'
    } else if d == 5 {
        '5'
    } else if d == 6 {
        '6'
    } else if d == 7 {
        '7'
    } else if d == 8 {
        '8'
    } else if d == 9 {
        '9'
    } else if d == 10 {
        'a'
    } else if d == 11 {
        'b'
    } else if d == 12 {
        'c'
    } else if d == 13 {
        'd'
    } else if d == 14 {
        'e'
    } else {
        'f'
    }
}

/// The lowercase hexadecimal rendering of a number, most significant digit
/// first, without leading zeros (a single `0` for zero).
pub open spec fn spec_hex(n: nat) -> Seq<char>
    decreases n,
{
    if n < 16 {
        seq![spec_hex_digit(n)]
    } else {
        spec_hex(n / 16).push(spec_hex_digit(n % 16))
    }
}

/// Executable form of [`spec_hex_digit`].
fn hex_digit(d: usize) -> (c: char)
    requires
        d < 16,
    ensures
        c == spec_hex_digit(d as nat),
{
    if d == 0 {
        '0'
    } else if d == 1 {
        '1'
    } else if d == 2 {
        '2'
    } else if d == 3 {
        '3'
    } else if d == 4 {
        '4'
    } else if d == 5 {
        '5'
    } else if d == 6 {
        '6'
    } else if d == 7 {
        '7'
    } else if d == 8 {
        '8'
    } else if d == 9 {
        '9'
    } else if d == 10 {
        'a'
    } else if d == 11 {
        'b'
    } else if d == 12 {
        'c'
    } else if d == 13 {
        'd'
    } else if d == 14 {
        'e'
    } else {
        'f'
    }
}

/// The lowercase hexadecimal rendering of a number.
pub fn hex_string(n: usize) -> (r: String)
    ensures
        r@ == spec_hex(n as nat),
    decreases n,
{
    if n < 16 {
        let mut s = String::new();
        s.push(hex_digit(n));
        s
    } else {
        let mut s = hex_string(n / 16);
        s.push(hex_digit(n % 16));
        s
    }
}

/// URL characters that cannot appear in a filename are flattened to an
/// underscore.
pub open spec fn spec_sanitize_char(c: char) -> char {
    if c == '/' || c == ':' || c == '?' || c == '&' || c == '=' {
        '_'
    } else {
        c
    }
}

/// Character-wise sanitization of a URL.
pub open spec fn spec_sanitized(s: Seq<char>) -> Seq<char> {
    s.map_values(|c: char| spec_sanitize_char(c))
}

/// Executable form of [`spec_sanitize_char`].
fn sanitize_char(c: char) -> (r: char)
    ensures
        r == spec_sanitize_char(c),
{
    if c == '/' || c == ':' || c == '?' || c == '&' || c == '=' {
        '_'
    } else {
        c
    }
}

/// At most the first [`HASH_TAIL_CHARS`] characters of a sequence.
pub open spec fn spec_tail_window(s: Seq<char>) -> Seq<char> {
    if s.len() <= HASH_TAIL_CHARS {
        s
    } else {
        s.take(HASH_TAIL_CHARS as int)
    }
}

/// The stable cache-filename stem derived from a URL: the hexadecimal
/// character count, an underscore, and a window of the sanitized URL read
/// backwards — deterministic in the URL alone, and in practice collision
/// resistant because both the length and the most specific part of the
/// URL (its tail) flow in.
pub open spec fn spec_url_hash(s: Seq<char>) -> Seq<char> {
    spec_hex(s.len()) + seq!['_'] + spec_tail_window(spec_sanitized(s).reverse())
}

/// Derive the cache-filename stem of a URL; equal URLs give equal stems.
pub fn url_hash(url: &str) -> (r: String)
    ensures
        r@ == spec_url_hash(url@),
{
    let n = url.unicode_len();
    let mut out = hex_string(n);
    out.push('_');
    let ghost rev = spec_sanitized(url@).reverse();
    proof {
        assert(rev.len() == n);
        assert(out@ =~= spec_hex(n as nat) + seq!['_'] + rev.take(0));
    }
    let limit = if n < HASH_TAIL_CHARS {
        n
    } else {
        HASH_TAIL_CHARS
    };
    let mut k: usize = 0;
    while k < limit
        invariant
            k <= limit,
            limit <= n,
            n == url@.len(),
            rev == spec_sanitized(url@).reverse(),
            out@ == spec_hex(n as nat) + seq!['_'] + rev.take(k as int),
        decreases limit - k,
    {
        let c = url.get_char(n - 1 - k);
        out.push(sanitize_char(c));
        proof {
            assert(rev[k as int] == spec_sanitized(url@)[n - 1 - k]);
            assert(spec_sanitized(url@)[n - 1 - k] == spec_sanitize_char(url@[n - 1 - k]));
            assert(rev.take(k as int + 1) =~= rev.take(k as int).push(rev[k as int]));
            assert(out@ =~= spec_hex(n as nat) + seq!['_'] + rev.take(k as int + 1));
        }
        k = k + 1;
    }
    proof {
        if n < HASH_TAIL_CHARS {
            assert(rev.take(limit as int) =~= rev);
        }
        assert(rev.take(limit as int) == spec_tail_window(rev));
    }
    out
}

/// Whether a character sequence ends in the given suffix.
pub open spec fn spec_has_suffix(s: Seq<char>, suffix: Seq<char>) -> bool {
    s.len() >= suffix.len() && s.subrange(s.len() - suffix.len(), s.len() as int) == suffix
}

/// Executable form of [`spec_has_suffix`].
pub fn has_suffix(s: &str, suffix: &str) -> (r: bool)
    ensures
        r == spec_has_suffix(s@, suffix@),
{
    let n = s.unicode_len();
    let m = suffix.unicode_len();
    if n < m {
        return false;
    }
    let mut k: usize = 0;
    while k < m
        invariant
            k <= m,
            m <= n,
            n == s@.len(),
            m == suffix@.len(),
            forall|j: int| 0 <= j < k ==> s@[n - m + j] == suffix@[j],
        decreases m - k,
    {
        let sc = s.get_char(n - m + k);
        let fc = suffix.get_char(k);
        if sc != fc {
            proof {
                let sub = s@.subrange(n - m, n as int);
                assert(sub[k as int] == s@[n - m + k]);
            }
            return false;
        }
        k = k + 1;
    }
    proof {
        assert(s@.subrange(n - m, n as int) =~= suffix@);
    }
    true
}

/// Whether the URL carries one of the recognized model-file suffixes.
pub open spec fn spec_extension_known(s: Seq<char>) -> bool {
    spec_has_suffix(s, ".glb"@) || spec_has_suffix(s, ".gltf"@) || spec_has_suffix(s, ".vrm"@)
}

/// The file extension guessed from the URL's suffix; unrecognized suffixes
/// fall back to the default model extension.
pub open spec fn spec_extension(s: Seq<char>) -> Seq<char> {
    if spec_has_suffix(s, ".glb"@) {
        "glb"@
    } else if spec_has_suffix(s, ".gltf"@) {
        "gltf"@
    } else if spec_has_suffix(s, ".vrm"@) {
        "vrm"@
    } else {
        "glb"@
    }
}

/// Guess the extension for a URL; the flag says whether the suffix was
/// recognized (the caller may warn when it was not).
pub fn extension_for(url: &str) -> (r: (String, bool))
    ensures
        r.0@ == spec_extension(url@),
        r.1 == spec_extension_known(url@),
{
    if has_suffix(url, ".glb") {
        (String::from_str("glb"), true)
    } else if has_suffix(url, ".gltf") {
        (String::from_str("gltf"), true)
    } else if has_suffix(url, ".vrm") {
        (String::from_str("vrm"), true)
    } else {
        (String::from_str("glb"), false)
    }
}

/// The canonical cache filename of a URL: stem, dot, guessed extension.
pub open spec fn spec_cache_file_name(url: Seq<char>) -> Seq<char> {
    spec_url_hash(url) + seq!['.'] + spec_extension(url)
}

/// The temporary filename a download writes to before the atomic rename:
/// same stem, `tmp` extension.
pub open spec fn spec_temp_file_name(url: Seq<char>) -> Seq<char> {
    spec_url_hash(url) + seq!['.'] + "tmp"@
}

/// Executable form of [`spec_cache_file_name`].
pub fn cache_file_name(url: &str) -> (r: String)
    ensures
        r@ == spec_cache_file_name(url@),
{
    let mut s = url_hash(url);
    s.push('.');
    let (ext, _known) = extension_for(url);
    s.append(ext.as_str());
    s
}

/// Executable form of [`spec_temp_file_name`].
pub fn temp_file_name(url: &str) -> (r: String)
    ensures
        r@ == spec_temp_file_name(url@),
{
    let mut s = url_hash(url);
    s.push('.');
    s.append("tmp");
    s
}

/// A directory joined with a filename.
pub open spec fn spec_join_path(dir: Seq<char>, name: Seq<char>) -> Seq<char> {
    dir + seq!['/'] + name
}

/// Executable form of [`spec_join_path`].
pub fn join_path(dir: &str, name: &str) -> (r: String)
    ensures
        r@ == spec_join_path(dir@, name@),
{
    let mut s = String::from_str(dir);
    s.push('/');
    s.append(name);
    s
}

/// The temporary filename never collides with the canonical one: the
/// canonical name ends in a model extension, the temporary name in `tmp`.
pub proof fn lemma_temp_name_distinct(url: Seq<char>)
    ensures
        spec_temp_file_name(url) != spec_cache_file_name(url),
{
    reveal_strlit("glb");
    reveal_strlit("gltf");
    reveal_strlit("vrm");
    reveal_strlit("tmp");
    let stem = spec_url_hash(url) + seq!['.'];
    let ext = spec_extension(url);
    let canon = spec_cache_file_name(url);
    let tmp = spec_temp_file_name(url);
    assert(canon =~= stem + ext);
    assert(tmp =~= stem + "tmp"@);
    if ext.len() == "tmp"@.len() {
        assert(canon[stem.len() as int] == ext[0]);
        assert(tmp[stem.len() as int] == 't');
        assert(ext[0] == 'g' || ext[0] == 'v');
    } else {
        assert(canon.len() != tmp.len());
    }
}

/// Joining one directory with two different filenames yields two
/// different paths.
pub proof fn lemma_join_path_distinct(dir: Seq<char>, n1: Seq<char>, n2: Seq<char>)
    requires
        n1 != n2,
    ensures
        spec_join_path(dir, n1) != spec_join_path(dir, n2),
{
    if spec_join_path(dir, n1) == spec_join_path(dir, n2) {
        assert(spec_join_path(dir, n1).len() == dir.len() + 1 + n1.len());
        assert(spec_join_path(dir, n2).len() == dir.len() + 1 + n2.len());
        assert(n1.len() == n2.len());
        assert forall|k: int| 0 <= k < n1.len() implies n1[k] == n2[k] by {
            assert(spec_join_path(dir, n1)[dir.len() + 1 + k] == n1[k]);
            assert(spec_join_path(dir, n2)[dir.len() + 1 + k] == n2[k]);
        }
        assert(n1 =~= n2);
    }
}

/// Executable string comparison by contents.
pub fn str_eq(a: &str, b: &str) -> (r: bool)
    ensures
        r == (a@ == b@),
{
    let n = a.unicode_len();
    let m = b.unicode_len();
    if n != m {
        return false;
    }
    let mut k: usize = 0;
    while k < n
        invariant
            k <= n,
            n == a@.len(),
            n == b@.len(),
            forall|j: int| 0 <= j < k ==> a@[j] == b@[j],
        decreases n - k,
    {
        let ac = a.get_char(k);
        let bc = b.get_char(k);
        if ac != bc {
            return false;
        }
        k = k + 1;
    }
    proof {
        assert(a@ =~= b@);
    }
    true
}

} // verus!
