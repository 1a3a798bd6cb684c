//! Reading the output of the pending-updates scan.
//!
//! The scan prints one record per line; a record's first whitespace-separated
//! token is the package name and its last token the version on offer.
use vstd::prelude::*;

verus! {

/// Whitespace as `char::is_whitespace` defines it: the Unicode `White_Space` set.
pub open spec fn is_ws(c: char) -> bool {
    let v = c as u32;
    (0x09 <= v && v <= 0x0D) || v == 0x20 || v == 0x85 || v == 0xA0 || v == 0x1680 || (0x2000
        <= v && v <= 0x200A) || v == 0x2028 || v == 0x2029 || v == 0x202F || v == 0x205F || v
        == 0x3000
}

/// Index of the first line break at or after `i`, or the length of `s`.
pub open spec fn line_end(s: Seq<char>, i: int) -> int
    decreases s.len() - i,
{
    if i >= s.len() {
        s.len() as int
    } else if s[i] == '\n' {
        i
    } else {
        line_end(s, i + 1)
    }
}

/// First index in `[i, hi)` that holds no whitespace, or `hi`.
pub open spec fn skip_ws(s: Seq<char>, i: int, hi: int) -> int
    decreases hi - i,
{
    if i >= hi {
        hi
    } else if !is_ws(s[i]) {
        i
    } else {
        skip_ws(s, i + 1, hi)
    }
}

/// First index in `[i, hi)` that holds whitespace, or `hi`: the end of a token starting at `i`.
pub open spec fn skip_word(s: Seq<char>, i: int, hi: int) -> int
    decreases hi - i,
{
    if i >= hi {
        hi
    } else if is_ws(s[i]) {
        i
    } else {
        skip_word(s, i + 1, hi)
    }
}

/// Going left from `j` down to `lo`, the first position just after a non-whitespace character.
pub open spec fn skip_ws_back(s: Seq<char>, lo: int, j: int) -> int
    decreases j - lo,
{
    if j <= lo {
        lo
    } else if !is_ws(s[j - 1]) {
        j
    } else {
        skip_ws_back(s, lo, j - 1)
    }
}

/// Going left from `j` down to `lo`, the first position just after a whitespace character:
/// the start of a token ending at `j`.
pub open spec fn skip_word_back(s: Seq<char>, lo: int, j: int) -> int
    decreases j - lo,
{
    if j <= lo {
        lo
    } else if is_ws(s[j - 1]) {
        j
    } else {
        skip_word_back(s, lo, j - 1)
    }
}

/// What the line `s[lo..hi]` announces: its first token as the name and its last token as
/// the version, the version being empty where the line holds one token; nothing for a blank line.
pub open spec fn entry_in(s: Seq<char>, lo: int, hi: int) -> Option<(Seq<char>, Seq<char>)> {
    let a = skip_ws(s, lo, hi);
    if a >= hi {
        None
    } else {
        let e = skip_ws_back(s, lo, hi);
        let c = skip_word_back(s, lo, e);
        let version = if c <= a {
            Seq::<char>::empty()
        } else {
            s.subrange(c, e)
        };
        Some((s.subrange(a, skip_word(s, a, hi)), version))
    }
}

/// The entries announced by the lines of `s` that start at or after `i`, in order.
pub open spec fn entries_from(s: Seq<char>, i: int) -> Seq<(Seq<char>, Seq<char>)>
    decreases s.len() + 1 - i,
{
    if i < 0 || i >= s.len() {
        Seq::empty()
    } else {
        let e = line_end(s, i);
        proof {
            lemma_line_end(s, i);
        }
        let rest = entries_from(s, e + 1);
        match entry_in(s, i, e) {
            Some(x) => seq![x] + rest,
            None => rest,
        }
    }
}

/// The entries, one for each non-blank line, that the scan output `s` announces.
pub open spec fn scan_entries(s: Seq<char>) -> Seq<(Seq<char>, Seq<char>)> {
    entries_from(s, 0)
}

/// One pending update, as a line of the scan announces it.
pub struct PendingUpdate {
    pub name: String,
    pub version: String,
}

impl View for PendingUpdate {
    type V = (Seq<char>, Seq<char>);

    open spec fn view(&self) -> (Seq<char>, Seq<char>) {
        (self.name@, self.version@)
    }
}

pub open spec fn entries_view(v: Seq<PendingUpdate>) -> Seq<(Seq<char>, Seq<char>)> {
    v.map_values(|p: PendingUpdate| p@)
}

pub fn is_whitespace(c: char) -> (r: bool)
    ensures
        r == is_ws(c),
{
    let v = c as u32;
    (0x09 <= v && v <= 0x0D) || v == 0x20 || v == 0x85 || v == 0xA0 || v == 0x1680 || (0x2000
        <= v && v <= 0x200A) || v == 0x2028 || v == 0x2029 || v == 0x202F || v == 0x205F || v
        == 0x3000
}

fn chars_of(s: &str) -> (r: Vec<char>)
    ensures
        r@ == s@,
{
    broadcast use vstd::string::group_string_axioms;

    let mut r: Vec<char> = Vec::new();
    for c in it: s.chars()
        invariant
            r@ == it.seq().take(it.index() as int),
            it.seq() == s@,
    {
        r.push(c);
    }
    r
}

fn chars_between(cs: &Vec<char>, a: usize, b: usize) -> (r: Vec<char>)
    requires
        a <= b <= cs.len(),
    ensures
        r@ == cs@.subrange(a as int, b as int),
{
    let mut r: Vec<char> = Vec::new();
    let mut k: usize = a;
    while k < b
        invariant
            a <= k <= b <= cs.len(),
            r@ == cs@.subrange(a as int, k as int),
        decreases b - k,
    {
        r.push(cs[k]);
        k = k + 1;
        assert(r@ =~= cs@.subrange(a as int, k as int));
    }
    r
}

/// Relies on `String`'s `FromIterator<char>`: the string holds the characters in order.
#[verifier::external_body]
fn string_of(cs: Vec<char>) -> (r: String)
    ensures
        r@ == cs@,
{
    cs.into_iter().collect()
}

fn find_line_end(cs: &Vec<char>, i: usize) -> (e: usize)
    requires
        i <= cs.len(),
    ensures
        e == line_end(cs@, i as int),
{
    let mut k: usize = i;
    while k < cs.len() && cs[k] != '\n'
        invariant
            i <= k <= cs.len(),
            line_end(cs@, k as int) == line_end(cs@, i as int),
        decreases cs.len() - k,
    {
        k = k + 1;
    }
    k
}

fn find_non_ws(cs: &Vec<char>, i: usize, hi: usize) -> (r: usize)
    requires
        i <= hi <= cs.len(),
    ensures
        r == skip_ws(cs@, i as int, hi as int),
{
    let mut k: usize = i;
    while k < hi && is_whitespace(cs[k])
        invariant
            i <= k <= hi <= cs.len(),
            skip_ws(cs@, k as int, hi as int) == skip_ws(cs@, i as int, hi as int),
        decreases hi - k,
    {
        k = k + 1;
    }
    k
}

fn find_ws(cs: &Vec<char>, i: usize, hi: usize) -> (r: usize)
    requires
        i <= hi <= cs.len(),
    ensures
        r == skip_word(cs@, i as int, hi as int),
{
    let mut k: usize = i;
    while k < hi && !is_whitespace(cs[k])
        invariant
            i <= k <= hi <= cs.len(),
            skip_word(cs@, k as int, hi as int) == skip_word(cs@, i as int, hi as int),
        decreases hi - k,
    {
        k = k + 1;
    }
    k
}

fn find_non_ws_back(cs: &Vec<char>, lo: usize, j: usize) -> (r: usize)
    requires
        lo <= j <= cs.len(),
    ensures
        r == skip_ws_back(cs@, lo as int, j as int),
{
    let mut k: usize = j;
    while k > lo && is_whitespace(cs[k - 1])
        invariant
            lo <= k <= j <= cs.len(),
            skip_ws_back(cs@, lo as int, k as int) == skip_ws_back(cs@, lo as int, j as int),
        decreases k - lo,
    {
        k = k - 1;
    }
    k
}

fn find_ws_back(cs: &Vec<char>, lo: usize, j: usize) -> (r: usize)
    requires
        lo <= j <= cs.len(),
    ensures
        r == skip_word_back(cs@, lo as int, j as int),
{
    let mut k: usize = j;
    while k > lo && !is_whitespace(cs[k - 1])
        invariant
            lo <= k <= j <= cs.len(),
            skip_word_back(cs@, lo as int, k as int) == skip_word_back(cs@, lo as int, j as int),
        decreases k - lo,
    {
        k = k - 1;
    }
    k
}

/// Reads the line `cs[lo..hi]`.
fn parse_line(cs: &Vec<char>, lo: usize, hi: usize) -> (r: Option<PendingUpdate>)
    requires
        lo <= hi <= cs.len(),
    ensures
        match r {
            Some(p) => entry_in(cs@, lo as int, hi as int) == Some(p@),
            None => entry_in(cs@, lo as int, hi as int) is None,
        },
{
    let a = find_non_ws(cs, lo, hi);
    if a >= hi {
        return None;
    }
    proof {
        lemma_skip_ws(cs@, lo as int, hi as int);
        lemma_skip_ws_back(cs@, lo as int, hi as int);
    }
    let b = find_ws(cs, a, hi);
    let e = find_non_ws_back(cs, lo, hi);
    let c = find_ws_back(cs, lo, e);
    proof {
        lemma_skip_word(cs@, a as int, hi as int);
        lemma_skip_word_back(cs@, lo as int, e as int);
    }
    let name = string_of(chars_between(cs, a, b));
    let version = if c <= a {
        string_of(Vec::new())
    } else {
        string_of(chars_between(cs, c, e))
    };
    proof {
        if c <= a {
            assert(version@ =~= Seq::<char>::empty());
        }
    }
    Some(PendingUpdate { name, version })
}

/// Reads the output of the pending-updates scan: one entry for each line that is not blank,
/// in the order of the lines.
pub fn parse_scan_output(out: &str) -> (r: Vec<PendingUpdate>)
    ensures
        entries_view(r@) == scan_entries(out@),
{
    let cs = chars_of(out);
    let n = cs.len();
    let mut r: Vec<PendingUpdate> = Vec::new();
    let mut i: usize = 0;
    while i < n
        invariant
            n == cs.len(),
            i <= n,
            entries_view(r@) + entries_from(cs@, i as int) == scan_entries(cs@),
        decreases n - i,
    {
        let e = find_line_end(&cs, i);
        proof {
            lemma_line_end(cs@, i as int);
        }
        let entry = parse_line(&cs, i, e);
        let ghost before = r@;
        match entry {
            Some(p) => {
                r.push(p);
                assert(entries_view(r@) =~= entries_view(before).push(p@));
            },
            None => {},
        }
        assert(entries_view(r@) + entries_from(cs@, e + 1) =~= scan_entries(cs@));
        if e < n {
            i = e + 1;
        } else {
            i = n;
        }
    }
    assert(entries_view(r@) =~= scan_entries(cs@));
    r
}

pub proof fn lemma_line_end(s: Seq<char>, i: int)
    requires
        0 <= i <= s.len(),
    ensures
        i <= line_end(s, i) <= s.len(),
        line_end(s, i) < s.len() ==> s[line_end(s, i)] == '\n',
        forall|k: int| i <= k < line_end(s, i) ==> s[k] != '\n',
    decreases s.len() - i,
{
    if i < s.len() && s[i] != '\n' {
        lemma_line_end(s, i + 1);
    }
}

pub proof fn lemma_skip_ws(s: Seq<char>, i: int, hi: int)
    requires
        i <= hi,
    ensures
        i <= skip_ws(s, i, hi) <= hi,
        forall|k: int| i <= k < skip_ws(s, i, hi) ==> is_ws(#[trigger] s[k]),
        skip_ws(s, i, hi) < hi ==> !is_ws(s[skip_ws(s, i, hi)]),
    decreases hi - i,
{
    if i < hi && is_ws(s[i]) {
        lemma_skip_ws(s, i + 1, hi);
    }
}

pub proof fn lemma_skip_word(s: Seq<char>, i: int, hi: int)
    requires
        i <= hi,
    ensures
        i <= skip_word(s, i, hi) <= hi,
        forall|k: int| i <= k < skip_word(s, i, hi) ==> !is_ws(#[trigger] s[k]),
        skip_word(s, i, hi) < hi ==> is_ws(s[skip_word(s, i, hi)]),
    decreases hi - i,
{
    if i < hi && !is_ws(s[i]) {
        lemma_skip_word(s, i + 1, hi);
    }
}

pub proof fn lemma_skip_ws_back(s: Seq<char>, lo: int, j: int)
    requires
        lo <= j,
    ensures
        lo <= skip_ws_back(s, lo, j) <= j,
        forall|k: int| skip_ws_back(s, lo, j) <= k < j ==> is_ws(#[trigger] s[k]),
        skip_ws_back(s, lo, j) > lo ==> !is_ws(s[skip_ws_back(s, lo, j) - 1]),
    decreases j - lo,
{
    if j > lo && is_ws(s[j - 1]) {
        lemma_skip_ws_back(s, lo, j - 1);
    }
}

pub proof fn lemma_skip_word_back(s: Seq<char>, lo: int, j: int)
    requires
        lo <= j,
    ensures
        lo <= skip_word_back(s, lo, j) <= j,
        forall|k: int| skip_word_back(s, lo, j) <= k < j ==> !is_ws(#[trigger] s[k]),
        skip_word_back(s, lo, j) > lo ==> is_ws(s[skip_word_back(s, lo, j) - 1]),
    decreases j - lo,
{
    if j > lo && !is_ws(s[j - 1]) {
        lemma_skip_word_back(s, lo, j - 1);
    }
}

proof fn lemma_line_end_at(s: Seq<char>, i: int, j: int)
    requires
        0 <= i <= j <= s.len(),
        forall|k: int| i <= k < j ==> s[k] != '\n',
        j == s.len() || s[j] == '\n',
    ensures
        line_end(s, i) == j,
    decreases j - i,
{
    if i < j {
        lemma_line_end_at(s, i + 1, j);
    }
}

proof fn lemma_skip_word_at(s: Seq<char>, i: int, j: int, hi: int)
    requires
        0 <= i <= j <= hi <= s.len(),
        forall|k: int| i <= k < j ==> !is_ws(s[k]),
        j == hi || is_ws(s[j]),
    ensures
        skip_word(s, i, hi) == j,
    decreases j - i,
{
    if i < j {
        lemma_skip_word_at(s, i + 1, j, hi);
    }
}

proof fn lemma_skip_word_back_at(s: Seq<char>, lo: int, i: int, j: int)
    requires
        0 <= lo <= i <= j <= s.len(),
        forall|k: int| i <= k < j ==> !is_ws(s[k]),
        i == lo || is_ws(s[i - 1]),
    ensures
        skip_word_back(s, lo, j) == i,
    decreases j - i,
{
    if i < j {
        lemma_skip_word_back_at(s, lo, i, j - 1);
    }
}

proof fn lemma_blank_from(s: Seq<char>, i: int)
    requires
        0 <= i,
        forall|k: int| 0 <= k < s.len() ==> is_ws(#[trigger] s[k]),
    ensures
        entries_from(s, i) == Seq::<(Seq<char>, Seq<char>)>::empty(),
    decreases s.len() + 1 - i,
{
    if i < s.len() {
        let e = line_end(s, i);
        lemma_line_end(s, i);
        lemma_skip_ws(s, i, e);
        assert(entry_in(s, i, e) is None);
        lemma_blank_from(s, e + 1);
    }
}

/// Scan output made of whitespace and line breaks alone, the empty output among it,
/// announces no update, so the list it yields is empty and the system reads as up to date.
pub proof fn lemma_blank_output_announces_nothing(s: Seq<char>)
    requires
        forall|k: int| 0 <= k < s.len() ==> is_ws(#[trigger] s[k]),
    ensures
        scan_entries(s) == Seq::<(Seq<char>, Seq<char>)>::empty(),
{
    lemma_blank_from(s, 0);
}

proof fn lemma_entries_reach(s: Seq<char>, i: int, k: int, x: (Seq<char>, Seq<char>))
    requires
        0 <= i <= k < s.len(),
        k == 0 || s[k - 1] == '\n',
        entry_in(s, k, line_end(s, k)) == Some(x),
    ensures
        entries_from(s, i).contains(x),
    decreases k - i,
{
    let e = line_end(s, i);
    lemma_line_end(s, i);
    let rest = entries_from(s, e + 1);
    if i == k {
        assert(entries_from(s, i) == seq![x] + rest);
        assert((seq![x] + rest)[0] == x);
    } else {
        assert(s[k - 1] == '\n');
        assert(e <= k - 1);
        lemma_entries_reach(s, e + 1, k, x);
        let j = choose|j: int| 0 <= j < rest.len() && rest[j] == x;
        match entry_in(s, i, e) {
            Some(y) => {
                assert((seq![y] + rest)[j + 1] == x);
            },
            None => {},
        }
    }
}

/// The line that a name and a version make: the name alone where the version is empty, else
/// the name, one space and the version.
pub open spec fn record_line(name: Seq<char>, version: Seq<char>) -> Seq<char> {
    if version.len() == 0 {
        name
    } else {
        name + seq![' '] + version
    }
}

/// Wherever it stands in the scan output, a whole line made of a name token, one space and a
/// version token announces that name with that version; a line made of the name token alone
/// announces it with an empty version.
pub proof fn lemma_record_line_announces(
    pre: Seq<char>,
    name: Seq<char>,
    version: Seq<char>,
    post: Seq<char>,
)
    requires
        pre.len() == 0 || pre.last() == '\n',
        post.len() == 0 || post[0] == '\n',
        name.len() > 0,
        forall|k: int| 0 <= k < name.len() ==> !is_ws(#[trigger] name[k]),
        forall|k: int| 0 <= k < version.len() ==> !is_ws(#[trigger] version[k]),
    ensures
        scan_entries(pre + record_line(name, version) + post).contains((name, version)),
{
    let line = record_line(name, version);
    let s = pre + line + post;
    let k0 = pre.len() as int;
    let n = name.len() as int;
    let k1 = k0 + line.len();
    assert forall|k: int| k0 <= k < k0 + n implies !is_ws(s[k]) by {
        assert(s[k] == name[k - k0]);
    }
    assert forall|k: int| k0 <= k < k1 implies s[k] != '\n' by {
        if k < k0 + n {
            assert(s[k] == name[k - k0]);
        } else if k == k0 + n {
            assert(s[k] == ' ');
        } else {
            assert(s[k] == version[k - k0 - n - 1]);
        }
    }
    if k1 < s.len() {
        assert(s[k1] == post[0]);
    }
    lemma_line_end_at(s, k0, k1);
    if k1 < s.len() {
        assert(is_ws(s[k1]));
    }
    if version.len() == 0 {
        lemma_skip_word_at(s, k0, k0 + n, k1);
        assert(!is_ws(s[k1 - 1]));
        lemma_skip_word_back_at(s, k0, k0, k1);
        assert(s.subrange(k0, k0 + n) =~= name);
    } else {
        assert(s[k0 + n] == ' ');
        lemma_skip_word_at(s, k0, k0 + n, k1);
        assert forall|k: int| k0 + n + 1 <= k < k1 implies !is_ws(s[k]) by {
            assert(s[k] == version[k - k0 - n - 1]);
        }
        assert(!is_ws(s[k1 - 1]));
        lemma_skip_word_back_at(s, k0, k0 + n + 1, k1);
        assert(s.subrange(k0, k0 + n) =~= name);
        assert(s.subrange(k0 + n + 1, k1) =~= version);
    }
    assert(entry_in(s, k0, k1) == Some((name, version)));
    if k0 > 0 {
        assert(s[k0 - 1] == pre.last());
    }
    lemma_entries_reach(s, 0, k0, (name, version));
}

} // verus!
