use vstd::prelude::*;

verus! {

/// Class of a search keyword: numeric keywords are matched against numeric
/// columns, all others against non-numeric columns.
#[derive(Clone, Copy, PartialEq, Eq, Structural, Debug)]
pub enum KeywordClass {
    Numeric,
    NonNumeric,
}

pub open spec fn is_digit_char(c: char) -> bool {
    '0' <= c && c <= '9'
}

pub open spec fn is_space_char(c: char) -> bool {
    c == ' ' || c == '\t' || c == '\n' || c == '\r'
}

pub open spec fn is_upper_char(c: char) -> bool {
    'A' <= c && c <= 'Z'
}

pub open spec fn spec_lower_char(c: char) -> char {
    if is_upper_char(c) {
        (((c as u8) + 32) as char)
    } else {
        c
    }
}

/// ASCII-lowercased copy of a character sequence.
pub open spec fn lower_seq(s: Seq<char>) -> Seq<char> {
    s.map_values(|c: char| spec_lower_char(c))
}

/// The sequence as it takes part in matching: lowercased when the match is
/// case-insensitive, unchanged otherwise.
pub open spec fn fold_case(s: Seq<char>, insensitive: bool) -> Seq<char> {
    if insensitive {
        lower_seq(s)
    } else {
        s
    }
}

pub open spec fn has_upper(s: Seq<char>) -> bool {
    exists|i: int| 0 <= i < s.len() && is_upper_char(s[i])
}

/// A keyword is numeric when it is non-empty and consists of decimal digits
/// only.
pub open spec fn is_numeric_keyword(s: Seq<char>) -> bool {
    s.len() > 0 && forall|i: int| 0 <= i < s.len() ==> is_digit_char(#[trigger] s[i])
}

pub open spec fn spec_classify(s: Seq<char>) -> KeywordClass {
    if is_numeric_keyword(s) {
        KeywordClass::Numeric
    } else {
        KeywordClass::NonNumeric
    }
}

/// Classifies a keyword by its own content. Total: every string lands in
/// exactly one class.
pub fn classify(keyword: &str) -> (r: KeywordClass)
    ensures
        r == spec_classify(keyword@),
{
    let len: usize = keyword.unicode_len();
    if len == 0 {
        return KeywordClass::NonNumeric;
    }
    let mut i: usize = 0;
    while i < len
        invariant
            0 <= i <= len,
            len == keyword@.len(),
            forall|k: int| 0 <= k < i ==> is_digit_char(#[trigger] keyword@[k]),
        decreases len - i,
    {
        let c = keyword.get_char(i);
        if !('0' <= c && c <= '9') {
            return KeywordClass::NonNumeric;
        }
        i = i + 1;
    }
    KeywordClass::Numeric
}

/// Every keyword classifies as exactly one of the two classes, whatever its
/// content.
pub proof fn lemma_classification_total(s: Seq<char>)
    ensures
        spec_classify(s) == KeywordClass::Numeric || spec_classify(s) == KeywordClass::NonNumeric,
        !(spec_classify(s) == KeywordClass::Numeric && spec_classify(s)
            == KeywordClass::NonNumeric),
        spec_classify(s) == KeywordClass::Numeric <==> is_numeric_keyword(s),
{
}

/// The needle occurs in the haystack starting at position `i`.
pub open spec fn match_at(h: Seq<char>, n: Seq<char>, i: int) -> bool {
    &&& 0 <= i
    &&& i + n.len() <= h.len()
    &&& forall|j: int| 0 <= j < n.len() ==> h[i + j] == #[trigger] n[j]
}

/// The needle occurs somewhere in the haystack.
pub open spec fn has_substring(h: Seq<char>, n: Seq<char>) -> bool {
    exists|i: int| match_at(h, n, i)
}

/// Substring search; with `insensitive` both sides are compared in their
/// ASCII-lowercased form.
pub fn contains_substring(h: &str, n: &str, insensitive: bool) -> (r: bool)
    ensures
        r == has_substring(fold_case(h@, insensitive), fold_case(n@, insensitive)),
{
    let ghost fh = fold_case(h@, insensitive);
    let ghost fn_ = fold_case(n@, insensitive);
    let hl: usize = h.unicode_len();
    let nl: usize = n.unicode_len();
    if nl > hl {
        assert(!has_substring(fh, fn_)) by {
            assert(forall|i: int| !match_at(fh, fn_, i));
        }
        return false;
    }
    let mut i: usize = 0;
    while i <= hl - nl
        invariant
            0 <= i <= hl - nl + 1,
            nl <= hl,
            hl == fh.len(),
            nl == fn_.len(),
            fh == fold_case(h@, insensitive),
            fn_ == fold_case(n@, insensitive),
            h@.len() == hl,
            n@.len() == nl,
            forall|k: int| 0 <= k < i ==> !match_at(fh, fn_, k),
        decreases hl - nl - i + 1,
    {
        let mut j: usize = 0;
        let mut ok: bool = true;
        while j < nl
            invariant
                0 <= j <= nl,
                0 <= i <= hl - nl,
                nl <= hl,
                hl == fh.len(),
                nl == fn_.len(),
                fh == fold_case(h@, insensitive),
                fn_ == fold_case(n@, insensitive),
                h@.len() == hl,
                n@.len() == nl,
                ok ==> forall|k: int| 0 <= k < j ==> fh[i + k] == fn_[k],
                !ok ==> !match_at(fh, fn_, i as int),
            decreases nl - j,
        {
            let hc = h.get_char(i + j);
            let nc = n.get_char(j);
            let (hc, nc) = if insensitive {
                (lower_char(hc), lower_char(nc))
            } else {
                (hc, nc)
            };
            if hc != nc {
                assert(fh[i + j] != fn_[j as int]);
                ok = false;
                j = nl;
            } else {
                assert(fh[i + j] == fn_[j as int]);
                j = j + 1;
            }
        }
        if ok {
            assert(match_at(fh, fn_, i as int));
            return true;
        }
        i = i + 1;
    }
    assert(forall|k: int| !match_at(fh, fn_, k)) by {
        assert forall|k: int| !match_at(fh, fn_, k) by {
            if 0 <= k && k + fn_.len() <= fh.len() {
                assert(k <= hl - nl);
            }
        }
    }
    false
}

pub fn lower_char(c: char) -> (r: char)
    ensures
        r == spec_lower_char(c),
{
    if 'A' <= c && c <= 'Z' {
        ((c as u8) + 32) as char
    } else {
        c
    }
}

/// Whether the string holds the given character anywhere.
pub fn contains_char(h: &str, c: char) -> (r: bool)
    ensures
        r == h@.contains(c),
{
    let len: usize = h.unicode_len();
    let mut i: usize = 0;
    while i < len
        invariant
            0 <= i <= len,
            len == h@.len(),
            forall|k: int| 0 <= k < i ==> h@[k] != c,
        decreases len - i,
    {
        if h.get_char(i) == c {
            return true;
        }
        i = i + 1;
    }
    false
}

/// Whether the string holds an ASCII uppercase letter anywhere.
pub fn has_uppercase(s: &str) -> (r: bool)
    ensures
        r == has_upper(s@),
{
    let len: usize = s.unicode_len();
    let mut i: usize = 0;
    while i < len
        invariant
            0 <= i <= len,
            len == s@.len(),
            forall|k: int| 0 <= k < i ==> !is_upper_char(#[trigger] s@[k]),
        decreases len - i,
    {
        let c = s.get_char(i);
        if 'A' <= c && c <= 'Z' {
            return true;
        }
        i = i + 1;
    }
    false
}

/// Character-for-character string equality.
pub fn str_eq(a: &str, b: &str) -> (r: bool)
    ensures
        r == (a@ == b@),
{
    let al: usize = a.unicode_len();
    let bl: usize = b.unicode_len();
    if al != bl {
        return false;
    }
    let mut i: usize = 0;
    while i < al
        invariant
            0 <= i <= al,
            al == a@.len(),
            al == b@.len(),
            forall|k: int| 0 <= k < i ==> a@[k] == b@[k],
        decreases al - i,
    {
        if a.get_char(i) != b.get_char(i) {
            return false;
        }
        i = i + 1;
    }
    proof {
        assert(a@ =~= b@);
    }
    true
}

pub open spec fn trim_start_spec(s: Seq<char>) -> Seq<char>
    decreases s.len(),
{
    if s.len() > 0 && is_space_char(s[0]) {
        trim_start_spec(s.drop_first())
    } else {
        s
    }
}

pub open spec fn trim_end_spec(s: Seq<char>) -> Seq<char>
    decreases s.len(),
{
    if s.len() > 0 && is_space_char(s[s.len() - 1]) {
        trim_end_spec(s.drop_last())
    } else {
        s
    }
}

/// The string with leading and trailing whitespace removed.
pub open spec fn trim_spec(s: Seq<char>) -> Seq<char> {
    trim_end_spec(trim_start_spec(s))
}

proof fn lemma_trim_start_at(s: Seq<char>, a: int)
    requires
        0 <= a <= s.len(),
        forall|k: int| 0 <= k < a ==> is_space_char(#[trigger] s[k]),
        a < s.len() ==> !is_space_char(s[a]),
    ensures
        trim_start_spec(s) == s.subrange(a, s.len() as int),
    decreases a,
{
    if a == 0 {
        assert(s.subrange(0, s.len() as int) =~= s);
    } else {
        assert(is_space_char(s[0]));
        lemma_trim_start_at(s.drop_first(), a - 1);
        assert(s.drop_first().subrange(a - 1, s.drop_first().len() as int) =~= s.subrange(
            a,
            s.len() as int,
        ));
    }
}

proof fn lemma_trim_end_at(s: Seq<char>, b: int)
    requires
        0 <= b <= s.len(),
        forall|k: int| b <= k < s.len() ==> is_space_char(#[trigger] s[k]),
        b > 0 ==> !is_space_char(s[b - 1]),
    ensures
        trim_end_spec(s) == s.subrange(0, b),
    decreases s.len() - b,
{
    if b == s.len() {
        assert(s.subrange(0, b) =~= s);
    } else {
        assert(is_space_char(s[s.len() - 1]));
        lemma_trim_end_at(s.drop_last(), b);
        assert(s.drop_last().subrange(0, b) =~= s.subrange(0, b));
    }
}

fn is_space(c: char) -> (r: bool)
    ensures
        r == is_space_char(c),
{
    c == ' ' || c == '\t' || c == '\n' || c == '\r'
}

/// The string with surrounding whitespace removed.
pub fn trim_str(s: &str) -> (r: &str)
    ensures
        r@ == trim_spec(s@),
{
    let len: usize = s.unicode_len();
    let mut a: usize = 0;
    while a < len && is_space(s.get_char(a))
        invariant
            0 <= a <= len,
            len == s@.len(),
            forall|k: int| 0 <= k < a ==> is_space_char(#[trigger] s@[k]),
        decreases len - a,
    {
        a = a + 1;
    }
    let mut b: usize = len;
    while b > a && is_space(s.get_char(b - 1))
        invariant
            a <= b <= len,
            len == s@.len(),
            forall|k: int| b <= k < len ==> is_space_char(#[trigger] s@[k]),
        decreases b,
    {
        b = b - 1;
    }
    proof {
        lemma_trim_start_at(s@, a as int);
        if b == a {
            lemma_trim_end_at(s@.subrange(a as int, len as int), 0);
        } else {
            lemma_trim_end_at(s@.subrange(a as int, len as int), b - a);
        }
        assert(s@.subrange(a as int, len as int).subrange(0, b - a) =~= s@.subrange(
            a as int,
            b as int,
        ));
    }
    s.substring_char(a, b)
}

/// The string with trailing whitespace removed.
pub fn trim_end_str(s: &str) -> (r: &str)
    ensures
        r@ == trim_end_spec(s@),
{
    let len: usize = s.unicode_len();
    let mut b: usize = len;
    while b > 0 && is_space(s.get_char(b - 1))
        invariant
            0 <= b <= len,
            len == s@.len(),
            forall|k: int| b <= k < len ==> is_space_char(#[trigger] s@[k]),
        decreases b,
    {
        b = b - 1;
    }
    proof {
        lemma_trim_end_at(s@, b as int);
    }
    s.substring_char(0, b)
}

/// The string cut to at most `width` characters.
pub open spec fn truncate_spec(s: Seq<char>, width: nat) -> Seq<char> {
    if s.len() <= width {
        s
    } else {
        s.subrange(0, width as int)
    }
}

/// Cuts a line to the given display width, counted in characters.
pub fn truncate(s: &str, width: usize) -> (r: &str)
    ensures
        r@ == truncate_spec(s@, width as nat),
{
    let len: usize = s.unicode_len();
    if len <= width {
        s
    } else {
        s.substring_char(0, width)
    }
}

/// Whether the vector holds the given process id.
pub fn contains_i32(v: &Vec<i32>, x: i32) -> (r: bool)
    ensures
        r == v@.contains(x),
{
    let mut i: usize = 0;
    while i < v.len()
        invariant
            0 <= i <= v@.len(),
            forall|k: int| 0 <= k < i ==> v@[k] != x,
        decreases v@.len() - i,
    {
        if v[i] == x {
            return true;
        }
        i = i + 1;
    }
    false
}

/// The sequence in reverse order.
pub fn reversed_i32(v: &Vec<i32>) -> (r: Vec<i32>)
    ensures
        r@ == v@.reverse(),
{
    let mut r: Vec<i32> = Vec::new();
    let len: usize = v.len();
    let mut i: usize = 0;
    while i < len
        invariant
            0 <= i <= len,
            len == v@.len(),
            r@.len() == i,
            forall|k: int| 0 <= k < i ==> r@[k] == v@[len - 1 - k],
        decreases len - i,
    {
        r.push(v[len - 1 - i]);
        i = i + 1;
    }
    proof {
        assert(r@ =~= v@.reverse());
    }
    r
}

} // verus!
