//! Line anchors: their textual form, errors of the engine, the tagged
//! rendering of a text and the resolution of an anchor to a line index.

use vstd::prelude::*;
use vstd::string::*;
use crate::text::{chars_of, decimal, lines_of, lines_spec, push_char, push_decimal, texts};
use crate::hashing::{hash_line, line_hash};

verus! {

/// Why a read or an edit batch was refused.
#[derive(Debug, Clone, PartialEq, Eq)]
pub enum HashlineError {
    /// The anchor text does not hold exactly one `:`.
    InvalidAnchorFormat,
    /// The part before the `:` is not a run of decimal digits that fits in `usize`.
    InvalidLineNumber,
    /// The part after the `:` is not a run of lower-case hexadecimal digits.
    InvalidHash,
    /// The operation name is none of the four known ones.
    UnknownOperation { name: String },
    /// The file digest the caller sent is not the digest of the live file.
    Conflict,
    /// No line has the anchor's hash.
    AnchorNotFound { line_num: usize, hash: String },
    /// Several lines have the anchor's hash and the line number missed.
    AnchorAmbiguous { line_num: usize, hash: String, count: usize },
    /// A range ends before it starts.
    InvertedRange,
    /// An operation runs past the end of the lines left by the operations
    /// applied before it. Only overlapping ranges in one batch can cause
    /// this; other overlaps are applied as the order of application gives.
    RangeOutOfBounds,
}

/// A line number (1-based) together with the hash the line had.
#[derive(Debug, Clone, PartialEq)]
pub struct LineAnchor {
    pub line_num: usize,
    pub hash: String,
}

pub open spec fn is_digit(c: char) -> bool {
    '0' as u32 <= c as u32 && c as u32 <= '9' as u32
}

/// The value of a sequence of decimal digits.
pub open spec fn digits_value(s: Seq<char>) -> nat
    decreases s.len(),
{
    if s.len() == 0 {
        0
    } else {
        digits_value(s.drop_last()) * 10 + (s.last() as u32 - '0' as u32) as nat
    }
}

/// `s` is a non-empty run of decimal digits whose value fits in `usize`.
pub open spec fn parses_as_usize(s: Seq<char>) -> bool {
    &&& s.len() > 0
    &&& forall|i: int| 0 <= i < s.len() ==> is_digit(#[trigger] s[i])
    &&& digits_value(s) <= usize::MAX
}

pub open spec fn is_hex_digit(c: char) -> bool {
    is_digit(c) || ('a' as u32 <= c as u32 && c as u32 <= 'f' as u32)
}

/// `s` is a non-empty run of lower-case hexadecimal digits.
pub open spec fn is_hex(s: Seq<char>) -> bool {
    s.len() > 0 && forall|i: int| 0 <= i < s.len() ==> is_hex_digit(#[trigger] s[i])
}

/// Position `k` holds the only `:` of `s`.
pub open spec fn sole_colon_at(s: Seq<char>, k: int) -> bool {
    &&& 0 <= k < s.len()
    &&& s[k] == ':'
    &&& forall|j: int| 0 <= j < s.len() && j != k ==> #[trigger] s[j] != ':'
}

/// `a` is what the text `s` of an anchor says.
pub open spec fn anchor_reads(s: Seq<char>, a: LineAnchor) -> bool {
    exists|k: int|
        sole_colon_at(s, k) && parses_as_usize(s.take(k))
            && is_hex(s.skip(k + 1)) && a.line_num == digits_value(s.take(k)) && a.hash@ == s.skip(k + 1)
}

/// Why the text of an anchor is refused, if it is.
pub open spec fn anchor_error(s: Seq<char>) -> Option<HashlineError> {
    if forall|k: int| !sole_colon_at(s, k) {
        Some(HashlineError::InvalidAnchorFormat)
    } else if exists|k: int| sole_colon_at(s, k) && !parses_as_usize(s.take(k)) {
        Some(HashlineError::InvalidLineNumber)
    } else if exists|k: int| sole_colon_at(s, k) && !is_hex(s.skip(k + 1)) {
        Some(HashlineError::InvalidHash)
    } else {
        None
    }
}

/// The 0-based index an anchor's line number points at (-1 for line 0,
/// which names no line).
pub open spec fn candidate_index(line_num: usize) -> int {
    line_num - 1
}

/// Indices below `n` of the line hashes equal to `h`, in increasing order.
pub open spec fn matches_upto(hs: Seq<Seq<char>>, h: Seq<char>, n: int) -> Seq<int>
    decreases n,
{
    if n <= 0 {
        Seq::empty()
    } else {
        let m = matches_upto(hs, h, n - 1);
        if hs[n - 1] == h { m.push(n - 1) } else { m }
    }
}

/// Indices of all line hashes equal to `h`.
pub open spec fn matching_lines(hs: Seq<Seq<char>>, h: Seq<char>) -> Seq<int> {
    matches_upto(hs, h, hs.len() as int)
}

/// The hash of each line.
pub open spec fn line_hashes(lines: Seq<Seq<char>>) -> Seq<Seq<char>> {
    lines.map_values(|l: Seq<char>| line_hash(l))
}

/// Where an anchor now stands among lines with hashes `hs`: `Ok` with an
/// index, or `Err` with the number of lines that carry its hash (0 or more
/// than 1).
pub open spec fn resolve_in(hs: Seq<Seq<char>>, line_num: usize, h: Seq<char>) -> Result<int, nat> {
    let idx = candidate_index(line_num);
    if 0 <= idx < hs.len() && hs[idx] == h {
        Ok(idx)
    } else {
        let m = matching_lines(hs, h);
        if m.len() == 1 { Ok(m[0]) } else { Err(m.len()) }
    }
}

/// Where an anchor now stands among `lines`.
pub open spec fn resolve_spec(lines: Seq<Seq<char>>, line_num: usize, h: Seq<char>) -> Result<int, nat> {
    resolve_in(line_hashes(lines), line_num, h)
}

/// The error reported for an anchor carried by `n` lines.
pub open spec fn resolve_error(a: LineAnchor, n: nat) -> HashlineError {
    if n == 0 {
        HashlineError::AnchorNotFound { line_num: a.line_num, hash: a.hash }
    } else {
        HashlineError::AnchorAmbiguous { line_num: a.line_num, hash: a.hash, count: n as usize }
    }
}

pub open spec fn str_texts(v: Seq<&str>) -> Seq<Seq<char>> {
    v.map_values(|s: &str| s@)
}

/// One record of the tagged rendering: `<n>:<hash>|<line>` and a newline.
pub open spec fn tag_record(n: nat, line: Seq<char>) -> Seq<char> {
    decimal(n) + seq![':'] + line_hash(line) + seq!['|'] + line + seq!['\n']
}

/// The records of the first `n` lines.
pub open spec fn tagged_upto(ls: Seq<Seq<char>>, n: int) -> Seq<char>
    decreases n,
{
    if n <= 0 {
        Seq::empty()
    } else {
        tagged_upto(ls, n - 1) + tag_record(n as nat, ls[n - 1])
    }
}

pub open spec fn tagged(ls: Seq<Seq<char>>) -> Seq<char> {
    tagged_upto(ls, ls.len() as int)
}

/// Each line of the content prefixed with its 1-based number and its hash.
pub fn tag_content(content: &str) -> (r: String)
    ensures
        r@ == tagged(lines_spec(content@)),
{
    let lines = lines_of(content);
    let ghost ls = texts(lines@);
    let mut r = String::new();
    let mut i: usize = 0;
    while i < lines.len()
        invariant
            i <= lines.len(),
            ls == texts(lines@),
            ls == lines_spec(content@),
            r@ == tagged_upto(ls, i as int),
        decreases lines.len() - i,
    {
        let ghost before = r@;
        push_decimal(&mut r, i + 1);
        push_char(&mut r, ':');
        let h = hash_line(lines[i].as_str());
        r.append(h.as_str());
        push_char(&mut r, '|');
        r.append(lines[i].as_str());
        push_char(&mut r, '\n');
        assert(r@ =~= before + tag_record((i + 1) as nat, ls[i as int]));
        i = i + 1;
    }
    r
}

proof fn lemma_digits_value_prefix(d: Seq<char>, j: int)
    requires
        0 <= j <= d.len(),
        forall|k: int| 0 <= k < d.len() ==> is_digit(#[trigger] d[k]),
    ensures
        digits_value(d.take(j)) <= digits_value(d),
    decreases d.len(),
{
    if j < d.len() {
        assert forall|k: int| 0 <= k < d.drop_last().len() implies is_digit(#[trigger] d.drop_last()[k]) by {
            assert(is_digit(d[k]));
        }
        lemma_digits_value_prefix(d.drop_last(), j);
        assert(d.drop_last().take(j) =~= d.take(j));
    } else {
        assert(d.take(j) =~= d);
    }
}

/// Parses the decimal number held by `s[from..to]`.
fn parse_number(s: &Vec<char>, from: usize, to: usize) -> (r: Option<usize>)
    requires
        from <= to <= s@.len(),
    ensures
        r is Some <==> parses_as_usize(s@.subrange(from as int, to as int)),
        r is Some ==> r->0 == digits_value(s@.subrange(from as int, to as int)),
{
    let mut i = from;
    let ghost d = s@.subrange(i as int, to as int);
    if i == to {
        return None;
    }
    let start = i;
    let mut v: usize = 0;
    while i < to
        invariant
            start == from,
            start <= i <= to <= s@.len(),
            d == s@.subrange(start as int, to as int),
            v == digits_value(d.take(i - start)),
            forall|k: int| 0 <= k < i - start ==> is_digit(#[trigger] d[k]),
        decreases to - i,
    {
        let c = s[i] as u32;
        if c < '0' as u32 || c > '9' as u32 {
            assert(!is_digit(d[i - start]));
            return None;
        }
        assert(d.take(i - start + 1).drop_last() =~= d.take(i - start));
        let dv = (c - '0' as u32) as usize;
        if v > (usize::MAX - dv) / 10 {
            proof {
                assert(digits_value(d.take(i - start + 1)) == v * 10 + dv);
                assert(v * 10 + dv > usize::MAX) by (nonlinear_arith)
                    requires v > (usize::MAX - dv) / 10, dv <= 9;
                if forall|k: int| 0 <= k < d.len() ==> is_digit(#[trigger] d[k]) {
                    lemma_digits_value_prefix(d, i - start + 1);
                }
            }
            return None;
        }
        v = v * 10 + dv;
        i = i + 1;
    }
    assert(d.take(i - start) =~= d);
    Some(v)
}

impl LineAnchor {
    /// Reads the textual form `<line_num>:<hash>`.
    pub fn parse(s: &str) -> (r: Result<LineAnchor, HashlineError>)
        ensures
            match anchor_error(s@) {
                Some(e) => r == Err::<LineAnchor, HashlineError>(e),
                None => r matches Ok(a) && anchor_reads(s@, a),
            },
    {
        let cs = chars_of(s);
        let mut colon: usize = cs.len();
        let mut i: usize = 0;
        while i < cs.len()
            invariant
                cs@ == s@,
                i <= cs.len(),
                colon == cs.len() || (colon < i && cs@[colon as int] == ':'),
                forall|j: int| 0 <= j < i && j != colon ==> #[trigger] cs@[j] != ':',
            decreases cs.len() - i,
        {
            if cs[i] == ':' {
                if colon < cs.len() {
                    assert forall|k: int| !sole_colon_at(s@, k) by {
                        if sole_colon_at(s@, k) {
                            assert(k == colon as int || k == i as int);
                        }
                    }
                    return Err(HashlineError::InvalidAnchorFormat);
                }
                colon = i;
            }
            i = i + 1;
        }
        if colon == cs.len() {
            return Err(HashlineError::InvalidAnchorFormat);
        }
        assert(sole_colon_at(s@, colon as int));
        assert(s@.take(colon as int) =~= cs@.subrange(0, colon as int));
        assert forall|k: int| sole_colon_at(s@, k) implies k == colon as int by {
            if k != colon as int {
                assert(s@[colon as int] == ':');
            }
        }
        match parse_number(&cs, 0, colon) {
            None => Err(HashlineError::InvalidLineNumber),
            Some(line_num) => {
                let mut hash = String::new();
                let mut j: usize = colon + 1;
                if j == cs.len() {
                    assert(!is_hex(s@.skip(colon + 1)));
                    return Err(HashlineError::InvalidHash);
                }
                while j < cs.len()
                    invariant
                        cs@ == s@,
                        colon < j <= cs.len(),
                        hash@ == cs@.subrange(colon + 1, j as int),
                        forall|q: int| 0 <= q < hash@.len() ==> is_hex_digit(#[trigger] hash@[q]),
                        sole_colon_at(s@, colon as int),
                        parses_as_usize(s@.take(colon as int)),
                        forall|k: int| sole_colon_at(s@, k) ==> k == colon as int,
                    decreases cs.len() - j,
                {
                    let c = cs[j];
                    let u = c as u32;
                    if !((u >= '0' as u32 && u <= '9' as u32) || (u >= 'a' as u32 && u <= 'f' as u32)) {
                        assert(s@.skip(colon + 1)[j - colon - 1] == c);
                        assert(!is_hex(s@.skip(colon + 1)));
                        return Err(HashlineError::InvalidHash);
                    }
                    push_char(&mut hash, c);
                    assert(hash@ =~= cs@.subrange(colon + 1, j + 1));
                    j = j + 1;
                }
                assert(hash@ =~= s@.skip(colon + 1));
                Ok(LineAnchor { line_num, hash })
            },
        }
    }
}

impl std::str::FromStr for LineAnchor {
    type Err = HashlineError;

    fn from_str(s: &str) -> Result<LineAnchor, HashlineError> {
        LineAnchor::parse(s)
    }
}

/// Every index that `matches_upto` lists is below `n` and carries the hash.
pub proof fn lemma_matches_upto(hs: Seq<Seq<char>>, h: Seq<char>, n: int)
    requires
        0 <= n <= hs.len(),
    ensures
        forall|k: int| 0 <= k < matches_upto(hs, h, n).len() ==> {
            let i = #[trigger] matches_upto(hs, h, n)[k];
            0 <= i < n && hs[i] == h
        },
    decreases n,
{
    if n > 0 {
        lemma_matches_upto(hs, h, n - 1);
        let m = matches_upto(hs, h, n - 1);
        assert forall|k: int| 0 <= k < matches_upto(hs, h, n).len() implies {
            let i = #[trigger] matches_upto(hs, h, n)[k];
            0 <= i < n && hs[i] == h
        } by {
            if k < m.len() {
                assert(matches_upto(hs, h, n)[k] == m[k]);
            }
        }
    }
}

/// The hash of each line.
pub fn hash_lines(lines: &[&str]) -> (r: Vec<String>)
    ensures
        texts(r@) == line_hashes(str_texts(lines@)),
{
    let ghost ls = str_texts(lines@);
    let mut r: Vec<String> = Vec::new();
    let mut i: usize = 0;
    while i < lines.len()
        invariant
            i <= lines.len(),
            ls == str_texts(lines@),
            texts(r@) == line_hashes(ls).take(i as int),
        decreases lines.len() - i,
    {
        let ghost rb = r@;
        let h = hash_line(lines[i]);
        r.push(h);
        assert(texts(r@) =~= texts(rb).push(h@));
        assert(texts(r@) =~= line_hashes(ls).take(i + 1));
        i = i + 1;
    }
    assert(line_hashes(ls).take(i as int) =~= line_hashes(ls));
    r
}

/// Finds the line an anchor refers to among lines with hashes `hashes`: the
/// line at its number if that line still has its hash, else the only line
/// that has it.
pub fn resolve_hashed(hashes: &Vec<String>, anchor: &LineAnchor) -> (r: Result<usize, HashlineError>)
    ensures
        match resolve_in(texts(hashes@), anchor.line_num, anchor.hash@) {
            Ok(i) => r == Ok::<usize, HashlineError>(i as usize),
            Err(n) => r == Err::<usize, HashlineError>(resolve_error(*anchor, n)),
        },
        r matches Ok(i) ==> i < hashes@.len() && hashes@[i as int]@ == anchor.hash@,
        resolve_in(texts(hashes@), anchor.line_num, anchor.hash@) matches Ok(i) ==> 0 <= i < hashes@.len(),
        hashes@.len() <= usize::MAX,
{
    assert(hashes@.len() == hashes.len());
    let ghost hs = texts(hashes@);
    proof {
        lemma_matches_upto(hs, anchor.hash@, hs.len() as int);
    }
    if anchor.line_num >= 1 && anchor.line_num - 1 < hashes.len() && hashes[anchor.line_num - 1] == anchor.hash {
        return Ok(anchor.line_num - 1);
    }
    let mut found: Vec<usize> = Vec::new();
    let mut i: usize = 0;
    while i < hashes.len()
        invariant
            i <= hashes.len(),
            hs == texts(hashes@),
            found@.map_values(|k: usize| k as int) == matches_upto(hs, anchor.hash@, i as int),
        decreases hashes.len() - i,
    {
        if hashes[i] == anchor.hash {
            found.push(i);
        }
        assert(found@.map_values(|k: usize| k as int) =~= matches_upto(hs, anchor.hash@, i + 1));
        i = i + 1;
    }
    if found.len() == 1 {
        assert(found@.map_values(|k: usize| k as int)[0] == found@[0] as int);
        Ok(found[0])
    } else if found.len() == 0 {
        Err(HashlineError::AnchorNotFound { line_num: anchor.line_num, hash: anchor.hash.clone() })
    } else {
        Err(HashlineError::AnchorAmbiguous {
            line_num: anchor.line_num,
            hash: anchor.hash.clone(),
            count: found.len(),
        })
    }
}

/// Finds the index the anchor now refers to: the line at its number if that
/// line still has its hash, else the only line that has it.
pub fn resolve_anchor(lines: &[&str], anchor: &LineAnchor) -> (r: Result<usize, HashlineError>)
    ensures
        match resolve_spec(str_texts(lines@), anchor.line_num, anchor.hash@) {
            Ok(i) => r == Ok::<usize, HashlineError>(i as usize),
            Err(n) => r == Err::<usize, HashlineError>(resolve_error(*anchor, n)),
        },
        r matches Ok(i) ==> i < lines@.len() && line_hash(lines@[i as int]@) == anchor.hash@,
{
    let hashes = hash_lines(lines);
    let r = resolve_hashed(&hashes, anchor);
    proof {
        if r is Ok {
            let i = r->Ok_0 as int;
            assert(texts(hashes@)[i] == hashes@[i]@);
        }
    }
    r
}

} // verus!
