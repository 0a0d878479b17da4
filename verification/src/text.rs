//! Text handling shared by the page parsers: whitespace, trimming, word
//! splitting, joining and decimal numbers.
use vstd::prelude::*;

verus! {

// ---------------------------------------------------------------------------
// Conversions between strings and characters
// ---------------------------------------------------------------------------

/// The characters of `s`, in order.
pub(crate) fn chars_of(s: &str) -> (r: Vec<char>)
    ensures
        r@ == s@,
{
    broadcast use vstd::string::group_string_axioms;

    let mut it = s.chars();
    let mut r: Vec<char> = Vec::new();
    loop
        invariant
            r@ + vstd::std_specs::iter::IteratorSpec::remaining(&it) == s@,
            vstd::std_specs::iter::IteratorSpec::decrease(&it) is Some,
        ensures
            r@ == s@,
        decreases vstd::std_specs::iter::IteratorSpec::decrease(&it)->0,
    {
        let ghost before = it;
        match it.next() {
            Some(c) => {
                proof {
                    assert(vstd::std_specs::iter::IteratorSpec::remaining(&before)[0] == c);
                    assert(r@.push(c) + vstd::std_specs::iter::IteratorSpec::remaining(&it) =~= r@
                        + vstd::std_specs::iter::IteratorSpec::remaining(&before));
                }
                r.push(c);
            },
            None => {
                proof {
                    assert(r@ =~= s@);
                }
                break;
            },
        }
    }
    r
}

/// The string made of the characters of `v` (`String: FromIterator<char>`).
#[verifier::external_body]
pub(crate) fn string_of(v: &Vec<char>) -> (r: String)
    ensures
        r@ == v@,
{
    v.iter().collect()
}

/// `s` followed by `t`.
pub fn concat_text(s: &str, t: &str) -> (r: String)
    ensures
        r@ == s@ + t@,
{
    let mut v = chars_of(s);
    let w = chars_of(t);
    let mut i: usize = 0;
    while i < w.len()
        invariant
            i <= w.len(),
            v@ == s@ + w@.take(i as int),
        decreases w.len() - i,
    {
        v.push(w[i]);
        i = i + 1;
        proof {
            assert(w@.take(i as int) =~= w@.take(i - 1).push(w@[i - 1]));
        }
    }
    proof {
        assert(w@.take(w.len() as int) =~= w@);
    }
    string_of(&v)
}

/// Whether `p` is a prefix of `s`.
pub open spec fn has_prefix(s: Seq<char>, p: Seq<char>) -> bool {
    p.len() <= s.len() && s.take(p.len() as int) == p
}

/// Whether `s` starts with `p` (`str::starts_with`).
pub fn starts_with(s: &str, p: &str) -> (r: bool)
    ensures
        r == has_prefix(s@, p@),
{
    let v = chars_of(s);
    let w = chars_of(p);
    if w.len() > v.len() {
        return false;
    }
    let mut i: usize = 0;
    while i < w.len()
        invariant
            i <= w.len() <= v.len(),
            v@ == s@,
            w@ == p@,
            forall|k: int| 0 <= k < i ==> v@[k] == w@[k],
        decreases w.len() - i,
    {
        if v[i] != w[i] {
            proof {
                assert(s@.take(p@.len() as int)[i as int] != p@[i as int]);
            }
            return false;
        }
        i = i + 1;
    }
    proof {
        assert(s@.take(p@.len() as int) =~= p@);
    }
    true
}

/// Whether `p` occurs somewhere in `s`.
pub open spec fn has_infix(s: Seq<char>, p: Seq<char>) -> bool {
    exists|k: int| 0 <= k && k + p.len() <= s.len() && #[trigger] s.subrange(k, k + p.len()) == p
}

/// Whether `s` contains `p` (`str::contains`).
pub fn contains(s: &str, p: &str) -> (r: bool)
    ensures
        r == has_infix(s@, p@),
{
    let v = chars_of(s);
    let w = chars_of(p);
    if w.len() > v.len() {
        proof {
            assert forall|k: int| 0 <= k && k + p@.len() <= s@.len() implies #[trigger] s@.subrange(
                k,
                k + p@.len(),
            ) != p@ by {}
        }
        return false;
    }
    let last = v.len() - w.len();
    let mut k: usize = 0;
    while k <= last
        invariant
            v@ == s@,
            w@ == p@,
            last == v.len() - w.len(),
            w.len() <= v.len(),
            k <= last + 1,
            forall|j: int| 0 <= j < k ==> #[trigger] s@.subrange(j, j + p@.len()) != p@,
        decreases last + 1 - k,
    {
        let mut i: usize = 0;
        let mut same = true;
        while i < w.len()
            invariant
                v@ == s@,
                w@ == p@,
                k + w.len() <= v.len(),
                i <= w.len(),
                same == (forall|t: int| 0 <= t < i ==> v@[k + t] == w@[t]),
            decreases w.len() - i,
        {
            if v[k + i] != w[i] {
                same = false;
            }
            i = i + 1;
        }
        if same {
            proof {
                assert(s@.subrange(k as int, k + p@.len()) =~= p@);
            }
            return true;
        }
        proof {
            let t = choose|t: int| 0 <= t < w.len() && v@[k + t] != w@[t];
            assert(s@.subrange(k as int, k + p@.len())[t] != p@[t]);
        }
        k = k + 1;
    }
    proof {
        assert forall|j: int| 0 <= j && j + p@.len() <= s@.len() implies #[trigger] s@.subrange(
            j,
            j + p@.len(),
        ) != p@ by {
            assert(j < k);
        }
    }
    false
}

// ---------------------------------------------------------------------------
// Whitespace
// ---------------------------------------------------------------------------

/// The characters with the Unicode `White_Space` property, which is what
/// `char::is_whitespace`, `str::trim` and `str::split_whitespace` go by.
pub open spec fn is_white(c: char) -> bool {
    let n = c as u32;
    ||| 9 <= n <= 13
    ||| n == 32
    ||| n == 0x85
    ||| n == 0xA0
    ||| n == 0x1680
    ||| 0x2000 <= n <= 0x200A
    ||| n == 0x2028
    ||| n == 0x2029
    ||| n == 0x202F
    ||| n == 0x205F
    ||| n == 0x3000
}

/// `char::is_whitespace`.
pub fn is_white_char(c: char) -> (b: bool)
    ensures
        b == is_white(c),
{
    let n = c as u32;
    (9 <= n && n <= 13) || n == 32 || n == 0x85 || n == 0xA0 || n == 0x1680 || (0x2000 <= n && n
        <= 0x200A) || n == 0x2028 || n == 0x2029 || n == 0x202F || n == 0x205F || n == 0x3000
}

/// `s` without its leading whitespace.
pub open spec fn trim_start(s: Seq<char>) -> Seq<char>
    decreases s.len(),
{
    if s.len() > 0 && is_white(s[0]) {
        trim_start(s.drop_first())
    } else {
        s
    }
}

/// `s` without its trailing whitespace.
pub open spec fn trim_end(s: Seq<char>) -> Seq<char>
    decreases s.len(),
{
    if s.len() > 0 && is_white(s.last()) {
        trim_end(s.drop_last())
    } else {
        s
    }
}

/// `s` without leading and trailing whitespace (`str::trim`).
pub open spec fn trimmed(s: Seq<char>) -> Seq<char> {
    trim_end(trim_start(s))
}

proof fn lemma_trim_start(s: Seq<char>, i: int)
    requires
        0 <= i <= s.len(),
        forall|k: int| 0 <= k < i ==> is_white(#[trigger] s[k]),
        i == s.len() || !is_white(s[i]),
    ensures
        trim_start(s) == s.skip(i),
    decreases i,
{
    if i > 0 {
        let t = s.drop_first();
        assert forall|k: int| 0 <= k < i - 1 implies is_white(#[trigger] t[k]) by {
            assert(t[k] == s[k + 1]);
        }
        if i < s.len() {
            assert(t[i - 1] == s[i]);
        }
        lemma_trim_start(t, i - 1);
        assert(t.skip(i - 1) =~= s.skip(i));
    } else {
        assert(s.skip(0) =~= s);
    }
}

proof fn lemma_trim_end(s: Seq<char>, j: int)
    requires
        0 <= j <= s.len(),
        forall|k: int| j <= k < s.len() ==> is_white(#[trigger] s[k]),
        j == 0 || !is_white(s[j - 1]),
    ensures
        trim_end(s) == s.take(j),
    decreases s.len() - j,
{
    if j < s.len() {
        let t = s.drop_last();
        assert forall|k: int| j <= k < t.len() implies is_white(#[trigger] t[k]) by {
            assert(t[k] == s[k]);
        }
        if j > 0 {
            assert(t[j - 1] == s[j - 1]);
        }
        lemma_trim_end(t, j);
        assert(t.take(j) =~= s.take(j));
    } else {
        assert(s.take(j) =~= s);
    }
}

/// A trimmed string has no whitespace at either end.
pub proof fn lemma_trimmed_ends(s: Seq<char>)
    ensures
        trimmed(s).len() > 0 ==> !is_white(trimmed(s)[0]) && !is_white(trimmed(s).last()),
        trimmed(s).len() <= s.len(),
{
    lemma_trim_start_shape(s);
    lemma_trim_end_shape(trim_start(s));
}

proof fn lemma_trim_start_shape(s: Seq<char>)
    ensures
        trim_start(s).len() <= s.len(),
        trim_start(s).len() > 0 ==> !is_white(trim_start(s)[0]),
        exists|i: int| 0 <= i <= s.len() && trim_start(s) == #[trigger] s.skip(i),
    decreases s.len(),
{
    if s.len() > 0 && is_white(s[0]) {
        lemma_trim_start_shape(s.drop_first());
        let i = choose|i: int|
            0 <= i <= s.drop_first().len() && trim_start(s.drop_first()) == #[trigger] s.drop_first().skip(i);
        assert(s.drop_first().skip(i) =~= s.skip(i + 1));
    } else {
        assert(s.skip(0) =~= s);
    }
}

proof fn lemma_trim_end_shape(s: Seq<char>)
    ensures
        trim_end(s).len() <= s.len(),
        trim_end(s).len() > 0 ==> !is_white(trim_end(s).last()),
        trim_end(s).len() > 0 ==> trim_end(s)[0] == s[0],
    decreases s.len(),
{
    if s.len() > 0 && is_white(s.last()) {
        lemma_trim_end_shape(s.drop_last());
    }
}

proof fn trim_start_index(s: Seq<char>) -> (i: int)
    ensures
        0 <= i <= s.len(),
        forall|k: int| 0 <= k < i ==> is_white(#[trigger] s[k]),
        i == s.len() || !is_white(s[i]),
        trim_start(s) == s.skip(i),
    decreases s.len(),
{
    if s.len() > 0 && is_white(s[0]) {
        let t = s.drop_first();
        let i0 = trim_start_index(t);
        assert forall|k: int| 0 <= k < i0 + 1 implies is_white(#[trigger] s[k]) by {
            if k > 0 {
                assert(s[k] == t[k - 1]);
            }
        }
        if i0 < t.len() {
            assert(s[i0 + 1] == t[i0]);
        }
        assert(t.skip(i0) =~= s.skip(i0 + 1));
        i0 + 1
    } else {
        assert(s.skip(0) =~= s);
        0
    }
}

proof fn trim_end_index(s: Seq<char>) -> (j: int)
    ensures
        0 <= j <= s.len(),
        forall|k: int| j <= k < s.len() ==> is_white(#[trigger] s[k]),
        j == 0 || !is_white(s[j - 1]),
        trim_end(s) == s.take(j),
    decreases s.len(),
{
    if s.len() > 0 && is_white(s.last()) {
        let t = s.drop_last();
        let j0 = trim_end_index(t);
        assert forall|k: int| j0 <= k < s.len() implies is_white(#[trigger] s[k]) by {
            if k < t.len() {
                assert(s[k] == t[k]);
            }
        }
        if j0 > 0 {
            assert(s[j0 - 1] == t[j0 - 1]);
        }
        assert(t.take(j0) =~= s.take(j0));
        j0
    } else {
        assert(s.take(s.len() as int) =~= s);
        s.len() as int
    }
}

/// Trimming removes exactly the whitespace at either end: `trimmed(s)` is the
/// part of `s` between a run of whitespace at its start and one at its end,
/// and, unless it is empty, begins and ends with a character that is not
/// whitespace. In particular `s` is all whitespace exactly when
/// `trimmed(s)` is empty.
pub proof fn lemma_trimmed_is_middle(s: Seq<char>)
    ensures
        exists|i: int, j: int|
            #![trigger s.subrange(i, j)]
            0 <= i <= j <= s.len() && trimmed(s) == s.subrange(i, j) && (forall|k: int|
                0 <= k < i ==> is_white(#[trigger] s[k])) && (forall|k: int|
                j <= k < s.len() ==> is_white(#[trigger] s[k])),
        trimmed(s).len() > 0 ==> !is_white(trimmed(s)[0]) && !is_white(trimmed(s).last()),
        trimmed(s).len() == 0 <==> forall|k: int| 0 <= k < s.len() ==> is_white(#[trigger] s[k]),
{
    let i = trim_start_index(s);
    let t = s.skip(i);
    let j = trim_end_index(t);
    assert(t.take(j) =~= s.subrange(i, i + j));
    assert forall|k: int| i + j <= k < s.len() implies is_white(#[trigger] s[k]) by {
        assert(s[k] == t[k - i]);
    }
    lemma_trimmed_ends(s);
    if trimmed(s).len() == 0 {
        assert forall|k: int| 0 <= k < s.len() implies is_white(#[trigger] s[k]) by {
            if k >= i {
                assert(j == 0);
            }
        }
    } else {
        assert(trimmed(s)[0] == s[i]);
    }
}

/// Text that has no whitespace at either end is left as it is by trimming,
/// whatever its length.
pub proof fn lemma_trimmed_keeps_clean_text(s: Seq<char>)
    requires
        s.len() > 0,
        !is_white(s[0]),
        !is_white(s.last()),
    ensures
        trimmed(s) == s,
{
    lemma_trim_start(s, 0);
    assert(s.skip(0) =~= s);
    lemma_trim_end(s, s.len() as int);
    assert(s.take(s.len() as int) =~= s);
}

/// Trimming twice is trimming once.
pub proof fn lemma_trimmed_idempotent(s: Seq<char>)
    ensures
        trimmed(trimmed(s)) == trimmed(s),
{
    let t = trimmed(s);
    lemma_trimmed_ends(s);
    if t.len() > 0 {
        lemma_trim_start(t, 0);
        assert(t.skip(0) =~= t);
        lemma_trim_end(t, t.len() as int);
        assert(t.take(t.len() as int) =~= t);
    }
}

/// `s` without leading and trailing whitespace (`str::trim`).
pub fn trim(s: &str) -> (r: String)
    ensures
        r@ == trimmed(s@),
        r@.len() > 0 ==> !is_white(r@[0]) && !is_white(r@.last()),
{
    proof {
        lemma_trimmed_ends(s@);
    }
    let v = chars_of(s);
    let n = v.len();
    let mut i: usize = 0;
    while i < n && is_white_char(v[i])
        invariant
            i <= n == v.len(),
            forall|k: int| 0 <= k < i ==> is_white(#[trigger] v@[k]),
        decreases n - i,
    {
        i = i + 1;
    }
    proof {
        lemma_trim_start(v@, i as int);
    }
    let mut j: usize = n;
    while j > i && is_white_char(v[j - 1])
        invariant
            i <= j <= n == v.len(),
            forall|k: int| j <= k < n ==> is_white(#[trigger] v@[k]),
        decreases j,
    {
        j = j - 1;
    }
    let ghost t = v@.skip(i as int);
    proof {
        assert forall|k: int| j - i <= k < t.len() implies is_white(#[trigger] t[k]) by {
            assert(t[k] == v@[k + i]);
        }
        if j > i {
            assert(t[j - i - 1] == v@[j - 1]);
        }
        lemma_trim_end(t, j - i);
    }
    let mut out: Vec<char> = Vec::new();
    let mut k: usize = i;
    while k < j
        invariant
            i <= k <= j <= n == v.len(),
            out@ == v@.subrange(i as int, k as int),
        decreases j - k,
    {
        out.push(v[k]);
        k = k + 1;
        proof {
            assert(out@ =~= v@.subrange(i as int, k as int));
        }
    }
    proof {
        assert(t.take(j - i) =~= v@.subrange(i as int, j as int));
    }
    string_of(&out)
}

// ---------------------------------------------------------------------------
// Words
// ---------------------------------------------------------------------------

pub proof fn lemma_deep_chars(v: Vec<char>)
    ensures
        v.deep_view() == v@,
{
    assert(v.deep_view() =~= v@);
}

/// Reading `s` from the left: the words completed so far and the word being
/// read at its end (empty when `s` ends in whitespace).
pub open spec fn word_scan(s: Seq<char>) -> (Seq<Seq<char>>, Seq<char>)
    decreases s.len(),
{
    if s.len() == 0 {
        (seq![], seq![])
    } else {
        let (ws, cur) = word_scan(s.drop_last());
        let c = s.last();
        if is_white(c) {
            if cur.len() > 0 {
                (ws.push(cur), seq![])
            } else {
                (ws, seq![])
            }
        } else {
            (ws, cur.push(c))
        }
    }
}

/// The maximal runs of non-whitespace characters of `s`, in order
/// (`str::split_whitespace`).
pub open spec fn words(s: Seq<char>) -> Seq<Seq<char>> {
    let (ws, cur) = word_scan(s);
    if cur.len() > 0 {
        ws.push(cur)
    } else {
        ws
    }
}

/// A word: not empty, and without whitespace.
pub open spec fn is_word(w: Seq<char>) -> bool {
    w.len() > 0 && forall|i: int| 0 <= i < w.len() ==> !is_white(#[trigger] w[i])
}

/// Every element of `ws` is a word.
pub open spec fn all_words(ws: Seq<Seq<char>>) -> bool {
    forall|i: int| 0 <= i < ws.len() ==> is_word(#[trigger] ws[i])
}

proof fn lemma_word_scan_words(s: Seq<char>)
    ensures
        all_words(word_scan(s).0),
        forall|i: int|
            0 <= i < word_scan(s).1.len() ==> !is_white(#[trigger] word_scan(s).1[i]),
    decreases s.len(),
{
    if s.len() > 0 {
        lemma_word_scan_words(s.drop_last());
    }
}

/// The words of a string are words.
pub proof fn lemma_words_are_words(s: Seq<char>)
    ensures
        all_words(words(s)),
{
    lemma_word_scan_words(s);
}

/// The words of `s`, as character vectors.
pub fn words_of(s: &str) -> (r: Vec<Vec<char>>)
    ensures
        r.deep_view() == words(s@),
{
    let v = chars_of(s);
    let mut ws: Vec<Vec<char>> = Vec::new();
    let mut cur: Vec<char> = Vec::new();
    let mut k: usize = 0;
    while k < v.len()
        invariant
            k <= v.len(),
            v@ == s@,
            word_scan(v@.take(k as int)) == (ws.deep_view(), cur@),
        decreases v.len() - k,
    {
        let c = v[k];
        let ghost before = ws.deep_view();
        proof {
            assert(v@.take(k + 1).drop_last() =~= v@.take(k as int));
            assert(v@.take(k + 1).last() == c);
        }
        if is_white_char(c) {
            if cur.len() > 0 {
                let done = cur;
                cur = Vec::new();
                ws.push(done);
                proof {
                    lemma_deep_chars(done);
                    assert(ws.deep_view() =~= before.push(done@));
                }
            }
        } else {
            cur.push(c);
        }
        k = k + 1;
        proof {
            assert(cur@ =~= word_scan(v@.take(k as int)).1);
            assert(ws.deep_view() =~= word_scan(v@.take(k as int)).0);
        }
    }
    proof {
        assert(v@.take(v.len() as int) =~= v@);
    }
    if cur.len() > 0 {
        let ghost before = ws.deep_view();
        let done = cur;
        ws.push(done);
        proof {
            lemma_deep_chars(done);
            assert(ws.deep_view() =~= before.push(done@));
        }
    }
    ws
}

/// The words of `ws` with one space between neighbours.
pub open spec fn join_words(ws: Seq<Seq<char>>) -> Seq<char>
    decreases ws.len(),
{
    if ws.len() == 0 {
        seq![]
    } else if ws.len() == 1 {
        ws[0]
    } else {
        join_words(ws.drop_last()) + seq![' '] + ws.last()
    }
}

/// The words of all `parts`, in order (`flat_map(str::split_whitespace)`).
pub open spec fn words_of_parts(parts: Seq<Seq<char>>) -> Seq<Seq<char>>
    decreases parts.len(),
{
    if parts.len() == 0 {
        seq![]
    } else {
        words_of_parts(parts.drop_last()) + words(parts.last())
    }
}

/// The text of `parts` with whitespace collapsed: the words of all parts,
/// one space between two words, nothing at either end.
pub open spec fn normalized(parts: Seq<Seq<char>>) -> Seq<char> {
    join_words(words_of_parts(parts))
}

pub fn join_chars(ws: &Vec<Vec<char>>) -> (r: Vec<char>)
    ensures
        r@ == join_words(ws.deep_view()),
{
    let ghost d = ws.deep_view();
    let mut out: Vec<char> = Vec::new();
    let mut i: usize = 0;
    while i < ws.len()
        invariant
            i <= ws.len(),
            d == ws.deep_view(),
            out@ == join_words(d.take(i as int)),
        decreases ws.len() - i,
    {
        let ghost prev = out@;
        if i > 0 {
            out.push(' ');
        }
        let w = &ws[i];
        let mut k: usize = 0;
        while k < w.len()
            invariant
                k <= w.len(),
                i < ws.len(),
                w@ == d[i as int],
                out@ == (if i > 0 {
                    prev + seq![' ']
                } else {
                    prev
                }) + w@.take(k as int),
            decreases w.len() - k,
        {
            out.push(w[k]);
            k = k + 1;
            proof {
                assert(w@.take(k as int) =~= w@.take(k - 1).push(w@[k - 1]));
            }
        }
        proof {
            assert(w@.take(w.len() as int) =~= w@);
            let t = d.take(i + 1);
            assert(t.drop_last() =~= d.take(i as int));
            if i == 0 {
                assert(prev =~= seq![]);
                assert(out@ =~= t[0]);
            } else {
                assert(out@ =~= prev + seq![' '] + t.last());
            }
        }
        i = i + 1;
    }
    proof {
        assert(d.take(ws.len() as int) =~= d);
    }
    out
}

proof fn lemma_scan_word_after(p: Seq<char>, w: Seq<char>)
    requires
        word_scan(p).1.len() == 0,
        forall|i: int| 0 <= i < w.len() ==> !is_white(#[trigger] w[i]),
    ensures
        word_scan(p + w) == (word_scan(p).0, w),
    decreases w.len(),
{
    if w.len() == 0 {
        assert(p + w =~= p);
    } else {
        let u = w.drop_last();
        assert forall|i: int| 0 <= i < u.len() implies !is_white(#[trigger] u[i]) by {
            assert(u[i] == w[i]);
        }
        lemma_scan_word_after(p, u);
        assert((p + w).drop_last() =~= p + u);
        assert((p + w).last() == w.last());
        assert(!is_white(w[w.len() - 1]));
        assert(u.push(w.last()) =~= w);
    }
}

proof fn lemma_scan_join(ws: Seq<Seq<char>>)
    requires
        ws.len() > 0,
        all_words(ws),
    ensures
        word_scan(join_words(ws)) == (ws.drop_last(), ws.last()),
    decreases ws.len(),
{
    let w = ws.last();
    assert(is_word(ws[ws.len() - 1]));
    if ws.len() == 1 {
        assert(seq![] + w =~= w);
        lemma_scan_word_after(seq![], w);
        assert(ws.drop_last() =~= seq![]);
    } else {
        let front = ws.drop_last();
        assert forall|i: int| 0 <= i < front.len() implies is_word(#[trigger] front[i]) by {
            assert(front[i] == ws[i]);
        }
        lemma_scan_join(front);
        let x = join_words(front) + seq![' '];
        assert(x.drop_last() =~= join_words(front));
        assert(x.last() == ' ');
        assert(is_word(front[front.len() - 1]));
        assert(front.drop_last().push(front.last()) =~= front);
        assert(word_scan(x) == (front, Seq::<char>::empty()));
        lemma_scan_word_after(x, w);
    }
}

/// Splitting words joined by single spaces gives the words back.
pub proof fn lemma_words_of_join(ws: Seq<Seq<char>>)
    requires
        all_words(ws),
    ensures
        words(join_words(ws)) == ws,
{
    if ws.len() == 0 {
        assert(words(join_words(ws)) =~= ws);
    } else {
        lemma_scan_join(ws);
        assert(is_word(ws[ws.len() - 1]));
        assert(ws.drop_last().push(ws.last()) =~= ws);
    }
}

/// The words of several parts are words.
pub proof fn lemma_words_of_parts_are_words(parts: Seq<Seq<char>>)
    ensures
        all_words(words_of_parts(parts)),
    decreases parts.len(),
{
    if parts.len() > 0 {
        lemma_words_of_parts_are_words(parts.drop_last());
        lemma_words_are_words(parts.last());
        let a = words_of_parts(parts.drop_last());
        let b = words(parts.last());
        assert forall|i: int| 0 <= i < (a + b).len() implies is_word(#[trigger] (a + b)[i]) by {
            if i < a.len() {
                assert((a + b)[i] == a[i]);
            } else {
                assert((a + b)[i] == b[i - a.len()]);
            }
        }
    }
}

/// Collapsing whitespace twice is collapsing it once.
pub proof fn lemma_normalized_idempotent(parts: Seq<Seq<char>>)
    ensures
        normalized(seq![normalized(parts)]) == normalized(parts),
{
    let t = normalized(parts);
    let one = seq![t];
    assert(one.drop_last() =~= Seq::<Seq<char>>::empty());
    assert(words_of_parts(one.drop_last()) =~= Seq::<Seq<char>>::empty());
    assert(words_of_parts(one) =~= words(t));
    lemma_words_of_parts_are_words(parts);
    lemma_words_of_join(words_of_parts(parts));
}

/// Collapsing whitespace keeps every word, in order: the words of the
/// collapsed text are exactly the words of all the parts.
pub proof fn lemma_normalized_keeps_words(parts: Seq<Seq<char>>)
    ensures
        words(normalized(parts)) == words_of_parts(parts),
{
    lemma_words_of_parts_are_words(parts);
    lemma_words_of_join(words_of_parts(parts));
}

/// In `t`, whitespace occurs only as single spaces between two other characters.
pub open spec fn is_collapsed(t: Seq<char>) -> bool {
    forall|i: int|
        0 <= i < t.len() && is_white(#[trigger] t[i]) ==> {
            &&& t[i] == ' '
            &&& 0 < i < t.len() - 1
            &&& !is_white(t[i - 1])
            &&& !is_white(t[i + 1])
        }
}

proof fn lemma_join_collapsed(ws: Seq<Seq<char>>)
    requires
        all_words(ws),
    ensures
        is_collapsed(join_words(ws)),
        ws.len() > 0 ==> join_words(ws).len() > 0 && !is_white(join_words(ws)[0])
            && !is_white(join_words(ws).last()),
    decreases ws.len(),
{
    if ws.len() == 1 {
        assert(is_word(ws[0]));
    } else if ws.len() > 1 {
        let front = ws.drop_last();
        assert forall|i: int| 0 <= i < front.len() implies is_word(#[trigger] front[i]) by {
            assert(front[i] == ws[i]);
        }
        lemma_join_collapsed(front);
        let a = join_words(front);
        let w = ws.last();
        assert(is_word(ws[ws.len() - 1]));
        let t = a + seq![' '] + w;
        assert(t == join_words(ws));
        assert forall|i: int| 0 <= i < t.len() && is_white(#[trigger] t[i]) implies {
            &&& t[i] == ' '
            &&& 0 < i < t.len() - 1
            &&& !is_white(t[i - 1])
            &&& !is_white(t[i + 1])
        } by {
            if i < a.len() {
                assert(t[i] == a[i]);
                if i + 1 < a.len() {
                    assert(t[i + 1] == a[i + 1]);
                }
                assert(t[i - 1] == a[i - 1]);
            } else if i == a.len() {
                assert(t[i - 1] == a.last());
                assert(t[i + 1] == w[0]);
            } else {
                assert(t[i] == w[i - a.len() - 1]);
            }
        }
        assert(t[0] == a[0]);
        assert(t.last() == w.last());
    }
}

/// Collapsed text carries whitespace only as single spaces between words.
pub proof fn lemma_normalized_collapsed(parts: Seq<Seq<char>>)
    ensures
        is_collapsed(normalized(parts)),
{
    lemma_words_of_parts_are_words(parts);
    lemma_join_collapsed(words_of_parts(parts));
}

// ---------------------------------------------------------------------------
// Concatenation of text pieces
// ---------------------------------------------------------------------------

/// All pieces one after the other.
pub open spec fn concat_all(parts: Seq<Seq<char>>) -> Seq<char>
    decreases parts.len(),
{
    if parts.len() == 0 {
        seq![]
    } else {
        concat_all(parts.drop_last()) + parts.last()
    }
}

/// All pieces one after the other (`collect::<String>()`).
pub fn concat_texts(parts: &Vec<String>) -> (r: String)
    ensures
        r@ == concat_all(parts.deep_view()),
{
    let ghost pv = parts.deep_view();
    let mut out: Vec<char> = Vec::new();
    let mut p: usize = 0;
    while p < parts.len()
        invariant
            p <= parts.len(),
            pv == parts.deep_view(),
            out@ == concat_all(pv.take(p as int)),
        decreases parts.len() - p,
    {
        let w = chars_of(parts[p].as_str());
        let ghost start = out@;
        let mut k: usize = 0;
        while k < w.len()
            invariant
                k <= w.len(),
                out@ == start + w@.take(k as int),
            decreases w.len() - k,
        {
            out.push(w[k]);
            k = k + 1;
            proof {
                assert(w@.take(k as int) =~= w@.take(k - 1).push(w@[k - 1]));
            }
        }
        proof {
            assert(w@.take(w.len() as int) =~= w@);
            assert(pv.take(p + 1).drop_last() =~= pv.take(p as int));
            assert(pv[p as int] == parts[p as int]@);
        }
        p = p + 1;
    }
    proof {
        assert(pv.take(parts.len() as int) =~= pv);
    }
    string_of(&out)
}

} // verus!

verus! {

// ---------------------------------------------------------------------------
// Decimal numbers
// ---------------------------------------------------------------------------

/// `char::is_ascii_digit`.
pub open spec fn is_digit(c: char) -> bool {
    48 <= (c as u32) <= 57
}

/// The value of an ASCII digit.
pub open spec fn digit_value(c: char) -> nat {
    ((c as u32) - 48) as nat
}

/// The value of a string of ASCII digits read in base ten.
pub open spec fn digits_value(d: Seq<char>) -> nat
    decreases d.len(),
{
    if d.len() == 0 {
        0
    } else {
        digits_value(d.drop_last()) * 10 + digit_value(d.last())
    }
}

/// Every character of `d` is an ASCII digit.
pub open spec fn all_digits(d: Seq<char>) -> bool {
    forall|i: int| 0 <= i < d.len() ==> is_digit(#[trigger] d[i])
}

/// The ASCII digits of `s`, in order.
pub open spec fn digits_in(s: Seq<char>) -> Seq<char>
    decreases s.len(),
{
    if s.len() == 0 {
        seq![]
    } else if is_digit(s.last()) {
        digits_in(s.drop_last()).push(s.last())
    } else {
        digits_in(s.drop_last())
    }
}

/// What `str::parse` gives for an unsigned integer type whose largest value
/// is `max`: an optional `+`, then one or more ASCII digits whose value is at
/// most `max`; anything else is an error.
pub open spec fn parse_unsigned(s: Seq<char>, max: nat) -> Option<nat> {
    let d = if s.len() > 0 && s[0] == '+' {
        s.drop_first()
    } else {
        s
    };
    if d.len() > 0 && all_digits(d) && digits_value(d) <= max {
        Some(digits_value(d))
    } else {
        None
    }
}

proof fn lemma_digits_value_grows(d: Seq<char>, k: int)
    requires
        0 <= k <= d.len(),
    ensures
        digits_value(d.take(k)) <= digits_value(d),
    decreases d.len() - k,
{
    if k < d.len() {
        lemma_digits_value_grows(d.drop_last(), k);
        assert(d.drop_last().take(k) =~= d.take(k));
    } else {
        assert(d.take(k) =~= d);
    }
}

/// `str::parse` into an unsigned integer type whose largest value is `max`.
pub fn parse_unsigned_text(s: &str, max: u64) -> (r: Option<u64>)
    ensures
        match parse_unsigned(s@, max as nat) {
            Some(v) => r == Some(v as u64),
            None => r is None,
        },
{
    let v = chars_of(s);
    let start: usize = if v.len() > 0 && v[0] == '+' {
        1
    } else {
        0
    };
    let ghost d = if s@.len() > 0 && s@[0] == '+' {
        s@.drop_first()
    } else {
        s@
    };
    proof {
        assert(d =~= v@.skip(start as int));
    }
    if start >= v.len() {
        return None;
    }
    let mut acc: u64 = 0;
    let mut k: usize = start;
    while k < v.len()
        invariant
            v@ == s@,
            d == v@.skip(start as int),
            d == (if s@.len() > 0 && s@[0] == '+' {
                s@.drop_first()
            } else {
                s@
            }),
            start <= k <= v.len(),
            all_digits(v@.subrange(start as int, k as int)),
            acc == digits_value(v@.subrange(start as int, k as int)),
            acc <= max,
        decreases v.len() - k,
    {
        let c = v[k];
        let n = c as u32;
        if n < 48 || n > 57 {
            proof {
                assert(d[k - start] == c);
                assert(!is_digit(d[k - start]));
                assert(!all_digits(d));
            }
            return None;
        }
        let dv = (n - 48) as u64;
        let ghost prev = v@.subrange(start as int, k as int);
        proof {
            let next = v@.subrange(start as int, k + 1);
            assert(next.drop_last() =~= prev);
            assert(next.last() == c);
        }
        if dv > max || acc > (max - dv) / 10 {
            proof {
                let next = v@.subrange(start as int, k + 1);
                if dv <= max {
                    assert(acc * 10 + dv > max) by (nonlinear_arith)
                        requires
                            acc > (max - dv) / 10,
                            dv <= max,
                    ;
                }
                assert(digits_value(next) > max);
                assert(next =~= d.take(k + 1 - start));
                lemma_digits_value_grows(d, k + 1 - start);
            }
            return None;
        }
        proof {
            assert(acc * 10 + dv <= max) by (nonlinear_arith)
                requires
                    acc <= (max - dv) / 10,
                    dv <= max,
            ;
        }
        acc = acc * 10 + dv;
        k = k + 1;
        proof {
            let next = v@.subrange(start as int, k as int);
            assert forall|i: int| 0 <= i < next.len() implies is_digit(#[trigger] next[i]) by {
                if i < prev.len() {
                    assert(next[i] == prev[i]);
                }
            }
        }
    }
    proof {
        assert(v@.subrange(start as int, v.len() as int) =~= d);
    }
    Some(acc)
}

/// The ASCII digits of `s`, in order (`filter(char::is_ascii_digit)`).
pub fn digits_of(s: &str) -> (r: String)
    ensures
        r@ == digits_in(s@),
{
    let v = chars_of(s);
    let mut out: Vec<char> = Vec::new();
    let mut k: usize = 0;
    while k < v.len()
        invariant
            k <= v.len(),
            v@ == s@,
            out@ == digits_in(v@.take(k as int)),
        decreases v.len() - k,
    {
        let c = v[k];
        proof {
            assert(v@.take(k + 1).drop_last() =~= v@.take(k as int));
            assert(v@.take(k + 1).last() == c);
        }
        let n = c as u32;
        if 48 <= n && n <= 57 {
            out.push(c);
        }
        k = k + 1;
    }
    proof {
        assert(v@.take(v.len() as int) =~= v@);
    }
    string_of(&out)
}

/// The digits of `n` in base ten, without leading zeros (`"0"` for zero).
pub open spec fn decimal(n: nat) -> Seq<char>
    decreases n,
{
    if n < 10 {
        seq![(n + 48) as char]
    } else {
        decimal(n / 10).push(((n % 10) + 48) as char)
    }
}

proof fn lemma_decimal_digits(n: nat)
    ensures
        decimal(n).len() > 0,
        all_digits(decimal(n)),
        digits_value(decimal(n)) == n,
    decreases n,
{
    if n < 10 {
        let c = (n + 48) as char;
        assert((c as u32) == n + 48);
        assert(decimal(n) =~= seq![c]);
        assert(decimal(n).drop_last() =~= Seq::<char>::empty());
        assert(digit_value(c) == n);
        assert(decimal(n).last() == c);
        assert(digits_value(decimal(n).drop_last()) == 0);
    } else {
        lemma_decimal_digits(n / 10);
        let c = ((n % 10) + 48) as char;
        assert((c as u32) == (n % 10) + 48);
        let d = decimal(n);
        assert(d.drop_last() =~= decimal(n / 10));
        assert(d.last() == c);
        assert(digit_value(c) == n % 10);
        assert(digits_value(d) == digits_value(decimal(n / 10)) * 10 + n % 10);
        assert((n / 10) * 10 + n % 10 == n);
        assert forall|i: int| 0 <= i < d.len() implies is_digit(#[trigger] d[i]) by {
            if i < d.len() - 1 {
                assert(d[i] == decimal(n / 10)[i]);
            }
        }
    }
}

/// Reading back a number written in base ten gives the number.
pub proof fn lemma_parse_decimal(n: nat, max: nat)
    requires
        n <= max,
    ensures
        parse_unsigned(decimal(n), max) == Some(n),
{
    lemma_decimal_digits(n);
    assert(is_digit(decimal(n)[0]));
}

fn push_decimal(n: u64, out: &mut Vec<char>)
    ensures
        final(out)@ == old(out)@ + decimal(n as nat),
    decreases n,
{
    if n >= 10 {
        push_decimal(n / 10, out);
    }
    let d = (n % 10) as u8;
    let c = (d + 48) as char;
    out.push(c);
    proof {
        assert(out@ =~= old(out)@ + decimal(n as nat));
    }
}

/// `n` written in base ten (`to_string` of an integer).
pub fn decimal_string(n: u64) -> (r: String)
    ensures
        r@ == decimal(n as nat),
{
    let mut out: Vec<char> = Vec::new();
    push_decimal(n, &mut out);
    proof {
        assert(out@ =~= decimal(n as nat));
    }
    string_of(&out)
}

} // verus!
