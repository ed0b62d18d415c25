//! Configuration, template sources, the error taxonomy, and the small
//! command grammars the tool accepts: the inline meme directive and the
//! coordinate literal of a new template slot.
//!
//! Loading persisted configuration from disk, and fetching template
//! sources, are the surrounding program's work; this module holds the
//! defaulting rules and the parsing.

use vstd::prelude::*;

use vstd::string::{StrSliceExecFns, StringExecFns};

use crate::template::MemeText;

verus! {

/// One place templates come from: a git repository identified by URL and
/// alias, or a local directory.
pub enum MemeSource {
    GitUrl { url: String, alias: String },
    LocalPath(String),
}

/// The tool's configuration: template sources, the watermark text, and
/// the watermark size fraction in quarter units (the image's shorter
/// dimension divided by this fraction gives the watermark font size; a
/// larger fraction means smaller text).
pub struct Config {
    pub sources: Vec<MemeSource>,
    pub watermark: String,
    pub watermark_size_fraction: u32,
}

impl Config {
    /// Build a configuration from what the persisted file held, filling
    /// each absent field with its default: the public template source,
    /// the stock watermark text, and a size fraction of thirty pixels'
    /// worth of quarter units.
    pub fn new(
        sources: Option<Vec<MemeSource>>,
        watermark: Option<String>,
        watermark_size_fraction: Option<u32>,
    ) -> (r: Config)
        ensures
            match sources {
                Some(s) => r.sources == s,
                None => r.sources@.len() == 1 && (r.sources@[0] matches MemeSource::GitUrl {
                    url,
                    alias,
                } && url@ == "https://github.com/TheRawMeatball/memeinator-memesrc.git"@ && alias@
                    == "default"@),
            },
            match watermark {
                Some(w) => r.watermark == w,
                None => r.watermark@ == "Made with meme-cli"@,
            },
            match watermark_size_fraction {
                Some(f) => r.watermark_size_fraction == f,
                None => r.watermark_size_fraction == 120,
            },
    {
        let sources = match sources {
            Some(s) => s,
            None => {
                let mut v: Vec<MemeSource> = Vec::new();
                v.push(
                    MemeSource::GitUrl {
                        url: String::from_str(
                            "https://github.com/TheRawMeatball/memeinator-memesrc.git",
                        ),
                        alias: String::from_str("default"),
                    },
                );
                v
            },
        };
        let watermark = match watermark {
            Some(w) => w,
            None => String::from_str("Made with meme-cli"),
        };
        let watermark_size_fraction = match watermark_size_fraction {
            Some(f) => f,
            None => 120,
        };
        Config { sources, watermark, watermark_size_fraction }
    }

    /// The watermark text.
    pub fn watermark(&self) -> (r: &String)
        ensures
            r == &self.watermark,
    {
        &self.watermark
    }

    /// The watermark size fraction, in quarter units.
    pub fn watermark_size_fraction(&self) -> (r: u32)
        ensures
            r == self.watermark_size_fraction,
    {
        self.watermark_size_fraction
    }

    /// The configured template sources, in priority order.
    pub fn fetch_source_list(&self) -> (r: &Vec<MemeSource>)
        ensures
            r == &self.sources,
    {
        &self.sources
    }
}

/// What can go wrong around a render: a broken persisted configuration, a
/// template directory without its image, a template name no source holds,
/// or an operation the chosen output path does not support.
#[derive(Debug)]
pub enum MemeError {
    ConfigError(String),
    AssetNotFound(String),
    TemplateNotFound(String),
    UnsupportedOperation(String),
}

impl MemeError {
    /// The human-readable context carried by the error.
    pub fn message(&self) -> (m: &String)
        ensures
            match self {
                MemeError::ConfigError(s) => m == s,
                MemeError::AssetNotFound(s) => m == s,
                MemeError::TemplateNotFound(s) => m == s,
                MemeError::UnsupportedOperation(s) => m == s,
            },
    {
        match self {
            MemeError::ConfigError(s) => s,
            MemeError::AssetNotFound(s) => s,
            MemeError::TemplateNotFound(s) => s,
            MemeError::UnsupportedOperation(s) => s,
        }
    }
}

/// The position of the first occurrence of `sep` in `s` at or after `k`,
/// or a negative value when there is none.
pub open spec fn find_char_from(s: Seq<char>, sep: char, k: int) -> int
    decreases s.len() - k,
{
    if k < 0 || k >= s.len() {
        -1
    } else if s[k] == sep {
        k
    } else {
        find_char_from(s, sep, k + 1)
    }
}

/// The pieces of `s` from position `k` on, split at every occurrence of
/// `sep`: one more piece than there are separators, empty pieces kept.
pub open spec fn split_char_from(s: Seq<char>, sep: char, k: int) -> Seq<Seq<char>>
    decreases s.len() - k,
{
    let i = find_char_from(s, sep, k);
    if k < 0 || i < k || i >= s.len() {
        seq![s.subrange(if 0 <= k <= s.len() { k } else { s.len() as int }, s.len() as int)]
    } else {
        seq![s.subrange(k, i)] + split_char_from(s, sep, i + 1)
    }
}

/// A found separator lies within the sequence, at or after `k`, and is
/// the first one there.
pub proof fn lemma_find_char_from(s: Seq<char>, sep: char, k: int)
    requires
        0 <= k <= s.len(),
    ensures
        find_char_from(s, sep, k) >= 0 ==> k <= find_char_from(s, sep, k) < s.len() && s[
            find_char_from(s, sep, k)
        ] == sep,
        find_char_from(s, sep, k) < 0 ==> forall|j: int| k <= j < s.len() ==> s[j] != sep,
    decreases s.len() - k,
{
    if k < s.len() && s[k] != sep {
        lemma_find_char_from(s, sep, k + 1);
    }
}

/// Find the first occurrence of `sep` in `text` at or after position `k`.
fn find_char(text: &str, n: usize, sep: char, k: usize) -> (r: Option<usize>)
    requires
        n == text@.len(),
        k <= n,
    ensures
        match r {
            Some(i) => i == find_char_from(text@, sep, k as int),
            None => find_char_from(text@, sep, k as int) < 0,
        },
    decreases n - k,
{
    if k >= n {
        None
    } else if text.get_char(k) == sep {
        Some(k)
    } else {
        find_char(text, n, sep, k + 1)
    }
}

/// Split `text` at every occurrence of `sep`: one more piece than there
/// are separators, empty pieces kept, in order.
pub fn split_at_char(text: &str, sep: char) -> (r: Vec<String>)
    ensures
        r@.len() == split_char_from(text@, sep, 0).len(),
        forall|j: int|
            0 <= j < r@.len() ==> (#[trigger] r@[j])@ == split_char_from(text@, sep, 0)[j],
{
    let n = text.unicode_len();
    let ghost total = split_char_from(text@, sep, 0);
    let mut out: Vec<String> = Vec::new();
    let ghost mut done: Seq<Seq<char>> = Seq::empty();
    let mut k: usize = 0;
    proof {
        assert(done + split_char_from(text@, sep, 0) =~= total);
    }
    loop
        invariant_except_break
            done + split_char_from(text@, sep, k as int) == total,
        invariant
            n == text@.len(),
            k <= n,
            done.len() == out@.len(),
            forall|j: int| 0 <= j < out@.len() ==> (#[trigger] out@[j])@ == done[j],
        ensures
            out@.len() == total.len(),
            forall|j: int| 0 <= j < out@.len() ==> (#[trigger] out@[j])@ == total[j],
        decreases n - k,
    {
        let ghost done0 = done;
        match find_char(text, n, sep, k) {
            None => {
                let piece = text.substring_char(k, n);
                out.push(String::from_str(piece));
                proof {
                    lemma_find_char_from(text@, sep, k as int);
                    done = done.push(text@.subrange(k as int, n as int));
                    assert(split_char_from(text@, sep, k as int) =~= seq![
                        text@.subrange(k as int, n as int),
                    ]);
                    assert(done =~= done0 + split_char_from(text@, sep, k as int));
                    assert(done =~= total);
                }
                break ;
            },
            Some(i) => {
                proof {
                    lemma_find_char_from(text@, sep, k as int);
                }
                let piece = text.substring_char(k, i);
                out.push(String::from_str(piece));
                proof {
                    done = done.push(text@.subrange(k as int, i as int));
                    let rest = split_char_from(text@, sep, i as int + 1);
                    assert(split_char_from(text@, sep, k as int) =~= seq![
                        text@.subrange(k as int, i as int),
                    ] + rest);
                    assert(done + rest =~= done0 + split_char_from(text@, sep, k as int));
                }
                k = i + 1;
            },
        }
    }
    out
}


/// True for a decimal digit.
pub open spec fn is_digit(c: char) -> bool {
    48 <= c as int <= 57
}

/// The value of one decimal digit.
pub open spec fn digit_val(c: char) -> int {
    c as int - 48
}

/// Every character is a decimal digit.
pub open spec fn all_digits(s: Seq<char>) -> bool {
    forall|i: int| 0 <= i < s.len() ==> is_digit(#[trigger] s[i])
}

/// The value of a decimal digit string.
pub open spec fn dec_val(s: Seq<char>) -> int
    decreases s.len(),
{
    if s.len() == 0 {
        0
    } else {
        dec_val(s.drop_last()) * 10 + digit_val(s.last())
    }
}

/// The digit part of an unsigned decimal literal: what follows an
/// optional leading plus sign.
pub open spec fn u32_digits(s: Seq<char>) -> Seq<char> {
    if s.len() > 0 && s[0] == '+' {
        s.drop_first()
    } else {
        s
    }
}

/// The shape an unsigned decimal literal must have: an optional leading
/// plus sign, then one or more digits.
pub open spec fn u32_literal(s: Seq<char>) -> bool {
    u32_digits(s).len() >= 1 && all_digits(u32_digits(s))
}

/// A digit string's value is nonnegative, and grows (weakly) with every
/// digit appended.
proof fn lemma_dec_val_monotone(s: Seq<char>, k: int)
    requires
        all_digits(s),
        0 <= k <= s.len(),
    ensures
        0 <= dec_val(s.take(k)) <= dec_val(s),
    decreases s.len(),
{
    if s.len() == 0 {
        assert(s.take(k) =~= s);
    } else if k == s.len() {
        assert(s.take(k) =~= s);
        assert(s.drop_last().take(s.len() - 1) =~= s.drop_last());
        assert(all_digits(s.drop_last()));
        lemma_dec_val_monotone(s.drop_last(), s.len() - 1);
    } else {
        assert(s.take(k) =~= s.drop_last().take(k));
        assert(all_digits(s.drop_last()));
        lemma_dec_val_monotone(s.drop_last(), k);
        assert(dec_val(s) == dec_val(s.drop_last()) * 10 + digit_val(s.last()));
        assert(dec_val(s.drop_last()) * 10 >= dec_val(s.drop_last())) by (nonlinear_arith)
            requires
                dec_val(s.drop_last()) >= 0,
        ;
    }
}

/// Parse an unsigned decimal literal: an optional plus sign, then digits,
/// the value fitting a u32. Returns nothing on any other input.
pub fn parse_u32(text: &str) -> (r: Option<u32>)
    ensures
        r is Some <==> u32_literal(text@) && dec_val(u32_digits(text@)) <= u32::MAX,
        r matches Some(v) ==> v == dec_val(u32_digits(text@)),
{
    let n = text.unicode_len();
    let start: usize = if n >= 1 && text.get_char(0) == '+' {
        1
    } else {
        0
    };
    let ghost digits = u32_digits(text@);
    proof {
        assert(digits =~= text@.subrange(start as int, n as int));
    }
    if n == start {
        return None;
    }
    let mut acc: u32 = 0;
    let mut i: usize = start;
    while i < n
        invariant
            n == text@.len(),
            start <= i <= n,
            start < n,
            digits == u32_digits(text@),
            digits =~= text@.subrange(start as int, n as int),
            all_digits(text@.subrange(start as int, i as int)),
            acc == dec_val(text@.subrange(start as int, i as int)),
        decreases n - i,
    {
        let c = text.get_char(i);
        if !('0' <= c && c <= '9') {
            proof {
                assert(digits[i - start] == text@[i as int]);
                assert(!is_digit(digits[i - start]));
            }
            return None;
        }
        let d = (c as u32) - 48;
        let wide = (acc as u64) * 10 + (d as u64);
        proof {
            let pre = text@.subrange(start as int, i as int);
            let post = text@.subrange(start as int, i as int + 1);
            assert(post.drop_last() =~= pre);
            assert(post.last() == text@[i as int]);
        }
        if wide > u32::MAX as u64 {
            proof {
                let post = text@.subrange(start as int, i as int + 1);
                if u32_literal(text@) {
                    assert(digits.take(i as int + 1 - start) =~= post);
                    lemma_dec_val_monotone(digits, i as int + 1 - start);
                }
            }
            return None;
        }
        acc = wide as u32;
        i = i + 1;
    }
    proof {
        assert(text@.subrange(start as int, n as int) =~= digits);
    }
    Some(acc)
}

/// Parse a slot coordinate literal `LEFT-TOP-RIGHT-BOTTOM`: four unsigned
/// decimal fields separated by dashes (anything after the fourth field is
/// ignored). Any other shape is a configuration error.
pub fn parse_coordinates(text: &str) -> (r: Result<MemeText, MemeError>)
    ensures
        r is Ok <==> {
            let pieces = split_char_from(text@, '-', 0);
            &&& pieces.len() >= 4
            &&& forall|j: int|
                0 <= j < 4 ==> u32_literal(#[trigger] pieces[j]) && dec_val(u32_digits(pieces[j]))
                    <= u32::MAX
        },
        r matches Ok(mt) ==> {
            let pieces = split_char_from(text@, '-', 0);
            &&& mt.min.0 == dec_val(u32_digits(pieces[0]))
            &&& mt.min.1 == dec_val(u32_digits(pieces[1]))
            &&& mt.max.0 == dec_val(u32_digits(pieces[2]))
            &&& mt.max.1 == dec_val(u32_digits(pieces[3]))
        },
        r matches Err(e) ==> e matches MemeError::ConfigError(m) && m@
            == "Incorrect coordinate literal"@,
{
    let pieces = split_at_char(text, '-');
    if pieces.len() < 4 {
        return Err(MemeError::ConfigError(String::from_str("Incorrect coordinate literal")));
    }
    let v0 = parse_u32(pieces[0].as_str());
    let v1 = parse_u32(pieces[1].as_str());
    let v2 = parse_u32(pieces[2].as_str());
    let v3 = parse_u32(pieces[3].as_str());
    match (v0, v1, v2, v3) {
        (Some(a), Some(b), Some(c), Some(d)) => Ok(MemeText { min: (a, b), max: (c, d) }),
        _ => Err(MemeError::ConfigError(String::from_str("Incorrect coordinate literal"))),
    }
}

/// The position of the first separator pair `$$` in `s` at or after `k`,
/// or a negative value when there is none. Matches do not overlap: the
/// search continues two places past a found pair.
pub open spec fn find_dd_from(s: Seq<char>, k: int) -> int
    decreases s.len() - k,
{
    if k < 0 || k + 2 > s.len() {
        -1
    } else if s[k] == '$' && s[k + 1] == '$' {
        k
    } else {
        find_dd_from(s, k + 1)
    }
}

/// The pieces of `s` from position `k` on, split at every occurrence of
/// the pair `$$`: one more piece than there are pairs, empty pieces kept.
pub open spec fn split_dd_from(s: Seq<char>, k: int) -> Seq<Seq<char>>
    decreases s.len() - k,
{
    let i = find_dd_from(s, k);
    if k < 0 || i < k || i + 2 > s.len() {
        seq![s.subrange(if 0 <= k <= s.len() { k } else { s.len() as int }, s.len() as int)]
    } else {
        seq![s.subrange(k, i)] + split_dd_from(s, i + 2)
    }
}

/// A found separator pair lies within the sequence, at or after `k`.
proof fn lemma_find_dd_from(s: Seq<char>, k: int)
    requires
        0 <= k <= s.len(),
    ensures
        find_dd_from(s, k) >= 0 ==> k <= find_dd_from(s, k) && find_dd_from(s, k) + 2 <= s.len(),
    decreases s.len() - k,
{
    if k + 2 <= s.len() && !(s[k] == '$' && s[k + 1] == '$') {
        lemma_find_dd_from(s, k + 1);
    }
}

/// Splitting yields at least one piece.
proof fn lemma_split_dd_len(s: Seq<char>, k: int)
    ensures
        split_dd_from(s, k).len() >= 1,
    decreases s.len() - k,
{
}

/// Find the first separator pair `$$` in `text` at or after position `k`.
fn find_dd(text: &str, n: usize, k: usize) -> (r: Option<usize>)
    requires
        n == text@.len(),
        k <= n,
    ensures
        match r {
            Some(i) => i == find_dd_from(text@, k as int),
            None => find_dd_from(text@, k as int) < 0,
        },
    decreases n - k,
{
    if n < 2 || k > n - 2 {
        None
    } else if text.get_char(k) == '$' && text.get_char(k + 1) == '$' {
        Some(k)
    } else {
        find_dd(text, n, k + 1)
    }
}

/// The prefix that marks an inline meme directive.
pub open spec fn directive_prefix() -> Seq<char> {
    seq!['/', 'm', 'e', 'm', 'e', ' ']
}

/// Parse an inline meme directive: `/meme NAME` with the content items
/// appended, separated by `$$` pairs. Returns the template name and the
/// content texts, or nothing when the text does not begin with the
/// directive prefix (such an input is plain text for its own slot).
pub fn parse_meme_directive(text: &str) -> (r: Option<(String, Vec<String>)>)
    ensures
        r is Some <==> text@.len() >= 6 && text@.subrange(0, 6) == directive_prefix(),
        r matches Some(p) ==> {
            let pieces = split_dd_from(text@, 6);
            &&& p.0@ == pieces[0]
            &&& p.1@.len() == pieces.len() - 1
            &&& forall|j: int| 0 <= j < p.1@.len() ==> (#[trigger] p.1@[j])@ == pieces[j + 1]
        },
{
    let n = text.unicode_len();
    if n < 6 {
        proof {
            assert(!(text@.len() >= 6));
        }
        return None;
    }
    let is_directive = text.get_char(0) == '/' && text.get_char(1) == 'm' && text.get_char(2)
        == 'e' && text.get_char(3) == 'm' && text.get_char(4) == 'e' && text.get_char(5) == ' ';
    proof {
        if is_directive {
            assert(text@.subrange(0, 6) =~= directive_prefix());
        } else {
            assert(text@.subrange(0, 6) != directive_prefix()) by {
                if text@.subrange(0, 6) == directive_prefix() {
                    assert(text@.subrange(0, 6)[0] == '/');
                    assert(text@.subrange(0, 6)[1] == 'm');
                    assert(text@.subrange(0, 6)[2] == 'e');
                    assert(text@.subrange(0, 6)[3] == 'm');
                    assert(text@.subrange(0, 6)[4] == 'e');
                    assert(text@.subrange(0, 6)[5] == ' ');
                }
            }
        }
    }
    if !is_directive {
        return None;
    }
    let ghost total = split_dd_from(text@, 6);
    proof {
        lemma_split_dd_len(text@, 6);
    }
    let mut pieces: Vec<String> = Vec::new();
    let ghost mut done: Seq<Seq<char>> = Seq::empty();
    let mut k: usize = 6;
    proof {
        assert(done + split_dd_from(text@, 6) =~= total);
    }
    loop
        invariant_except_break
            done + split_dd_from(text@, k as int) == total,
        invariant
            n == text@.len(),
            6 <= k <= n,
            done.len() == pieces@.len(),
            forall|j: int| 0 <= j < pieces@.len() ==> (#[trigger] pieces@[j])@ == done[j],
        ensures
            pieces@.len() == total.len(),
            forall|j: int| 0 <= j < pieces@.len() ==> (#[trigger] pieces@[j])@ == total[j],
        decreases n - k,
    {
        let ghost done0 = done;
        match find_dd(text, n, k) {
            None => {
                let piece = text.substring_char(k, n);
                pieces.push(String::from_str(piece));
                proof {
                    done = done.push(text@.subrange(k as int, n as int));
                    assert(split_dd_from(text@, k as int) =~= seq![
                        text@.subrange(k as int, n as int),
                    ]);
                    assert(done =~= done0 + split_dd_from(text@, k as int));
                    assert(done =~= total);
                }
                break ;
            },
            Some(i) => {
                proof {
                    lemma_find_dd_from(text@, k as int);
                }
                let piece = text.substring_char(k, i);
                pieces.push(String::from_str(piece));
                proof {
                    done = done.push(text@.subrange(k as int, i as int));
                    let rest = split_dd_from(text@, i as int + 2);
                    assert(split_dd_from(text@, k as int) =~= seq![
                        text@.subrange(k as int, i as int),
                    ] + rest);
                    assert(done + rest =~= done0 + split_dd_from(text@, k as int));
                }
                k = i + 2;
            },
        }
    }
    let mut inputs: Vec<String> = Vec::new();
    let template = String::from_str(pieces[0].as_str());
    let mut j: usize = 1;
    while j < pieces.len()
        invariant
            1 <= j <= pieces@.len(),
            pieces@.len() == total.len(),
            forall|j2: int| 0 <= j2 < pieces@.len() ==> (#[trigger] pieces@[j2])@ == total[j2],
            inputs@.len() == j - 1,
            forall|j2: int| 0 <= j2 < inputs@.len() ==> (#[trigger] inputs@[j2])@ == total[j2 + 1],
        decreases pieces@.len() - j,
    {
        inputs.push(String::from_str(pieces[j].as_str()));
        j = j + 1;
    }
    Some((template, inputs))
}
} // verus!
