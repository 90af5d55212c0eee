//! Character-level text helpers: whitespace trimming, line splitting,
//! decimal rendering and joining, stated over `Seq<char>`.
use vstd::prelude::*;

verus! {

/// The texts of a sequence of strings.
pub open spec fn string_views(s: Seq<String>) -> Seq<Seq<char>> {
    s.map_values(|x: String| x@)
}

/// Unicode `White_Space` code points, as `char::is_whitespace` tests them.
pub open spec fn is_ws(c: char) -> bool {
    let u = c as u32;
    ||| (0x09 <= u && u <= 0x0D)
    ||| u == 0x20
    ||| u == 0x85
    ||| u == 0xA0
    ||| u == 0x1680
    ||| (0x2000 <= u && u <= 0x200A)
    ||| u == 0x2028
    ||| u == 0x2029
    ||| u == 0x202F
    ||| u == 0x205F
    ||| u == 0x3000
}

pub fn char_is_ws(c: char) -> (r: bool)
    ensures
        r == is_ws(c),
{
    let u = c as u32;
    (0x09 <= u && u <= 0x0D) || u == 0x20 || u == 0x85 || u == 0xA0 || u == 0x1680 || (0x2000
        <= u && u <= 0x200A) || u == 0x2028 || u == 0x2029 || u == 0x202F || u == 0x205F || u
        == 0x3000
}

/// Index of the first non-whitespace character (or the length).
pub open spec fn trim_start_index(s: Seq<char>) -> int
    decreases s.len(),
{
    if s.len() == 0 {
        0
    } else if is_ws(s[0]) {
        1 + trim_start_index(s.drop_first())
    } else {
        0
    }
}

/// One past the last non-whitespace character (or zero).
pub open spec fn trim_end_index(s: Seq<char>) -> int
    decreases s.len(),
{
    if s.len() == 0 {
        0
    } else if is_ws(s.last()) {
        trim_end_index(s.drop_last())
    } else {
        s.len() as int
    }
}

/// `s` with leading and trailing whitespace removed.
pub open spec fn trim(s: Seq<char>) -> Seq<char> {
    let a = trim_start_index(s);
    let b = trim_end_index(s);
    if a < b {
        s.subrange(a, b)
    } else {
        Seq::empty()
    }
}

pub proof fn lemma_trim_start_bounds(s: Seq<char>)
    ensures
        0 <= trim_start_index(s) <= s.len(),
        forall|i: int| 0 <= i < trim_start_index(s) ==> is_ws(#[trigger] s[i]),
        trim_start_index(s) < s.len() ==> !is_ws(s[trim_start_index(s)]),
    decreases s.len(),
{
    if s.len() > 0 && is_ws(s[0]) {
        lemma_trim_start_bounds(s.drop_first());
        assert forall|i: int| 0 <= i < trim_start_index(s) implies is_ws(#[trigger] s[i]) by {
            if i > 0 {
                assert(s[i] == s.drop_first()[i - 1]);
            }
        }
    }
}

pub proof fn lemma_trim_end_bounds(s: Seq<char>)
    ensures
        0 <= trim_end_index(s) <= s.len(),
        forall|i: int| trim_end_index(s) <= i < s.len() ==> is_ws(#[trigger] s[i]),
        trim_end_index(s) > 0 ==> !is_ws(s[trim_end_index(s) - 1]),
    decreases s.len(),
{
    if s.len() > 0 && is_ws(s.last()) {
        lemma_trim_end_bounds(s.drop_last());
        assert forall|i: int| trim_end_index(s) <= i < s.len() implies is_ws(#[trigger] s[i]) by {
            if i < s.len() - 1 {
                assert(s[i] == s.drop_last()[i]);
            }
        }
    }
}

proof fn lemma_trim_start_char(s: Seq<char>, k: int)
    requires
        0 <= k <= s.len(),
        forall|i: int| 0 <= i < k ==> is_ws(#[trigger] s[i]),
        k < s.len() ==> !is_ws(s[k]),
    ensures
        trim_start_index(s) == k,
    decreases s.len(),
{
    if s.len() > 0 && k > 0 {
        assert forall|i: int| 0 <= i < k - 1 implies is_ws(#[trigger] s.drop_first()[i]) by {
            assert(s.drop_first()[i] == s[i + 1]);
        }
        if k < s.len() {
            assert(s.drop_first()[k - 1] == s[k]);
        }
        lemma_trim_start_char(s.drop_first(), k - 1);
        assert(is_ws(s[0]));
    }
}

proof fn lemma_trim_end_char(s: Seq<char>, k: int)
    requires
        0 <= k <= s.len(),
        forall|i: int| k <= i < s.len() ==> is_ws(#[trigger] s[i]),
        k > 0 ==> !is_ws(s[k - 1]),
    ensures
        trim_end_index(s) == k,
    decreases s.len(),
{
    if s.len() > 0 && k < s.len() {
        assert(is_ws(s[s.len() - 1]));
        assert forall|i: int| k <= i < s.drop_last().len() implies is_ws(
            #[trigger] s.drop_last()[i],
        ) by {
            assert(s.drop_last()[i] == s[i]);
        }
        if k > 0 {
            assert(s.drop_last()[k - 1] == s[k - 1]);
        }
        lemma_trim_end_char(s.drop_last(), k);
    }
}

/// The characters of a string slice.
pub fn chars_of(s: &str) -> (v: Vec<char>)
    ensures
        v@ == s@,
{
    broadcast use vstd::string::group_string_axioms;

    let mut v: Vec<char> = Vec::new();
    for c in it: s.chars()
        invariant
            v@ == it.seq().take(it.index() as int),
            it.seq() == s@,
    {
        v.push(c);
        assert(v@ =~= it.seq().take(it.index() + 1));
    }
    assert(v@ =~= s@);
    v
}

/// Builds a `String` holding exactly the given characters
/// (`FromIterator<&char>` for `String`).
#[verifier::external_body]
pub(crate) fn string_from_chars(v: &[char]) -> (s: String)
    ensures
        s@ == v@,
{
    String::from_iter(v)
}

/// Equality of two character sequences.
pub fn chars_eq(a: &[char], b: &[char]) -> (r: bool)
    ensures
        r == (a@ == b@),
{
    if a.len() != b.len() {
        return false;
    }
    let mut i: usize = 0;
    while i < a.len()
        invariant
            a@.len() == b@.len(),
            i <= a@.len(),
            forall|j: int| 0 <= j < i ==> a@[j] == b@[j],
        decreases a@.len() - i,
    {
        if a[i] != b[i] {
            return false;
        }
        i = i + 1;
    }
    assert(a@ =~= b@);
    true
}

/// Appends all of `src` to `dst`.
pub fn push_all(dst: &mut Vec<char>, src: &[char])
    ensures
        final(dst)@ == old(dst)@ + src@,
{
    let ghost start = dst@;
    let mut i: usize = 0;
    while i < src.len()
        invariant
            i <= src@.len(),
            dst@ == start + src@.take(i as int),
        decreases src@.len() - i,
    {
        dst.push(src[i]);
        assert(src@.take(i + 1) =~= src@.take(i as int).push(src@[i as int]));
        i = i + 1;
    }
    assert(src@.take(src@.len() as int) =~= src@);
}

/// Appends the characters of a string slice to `dst`.
pub fn push_str(dst: &mut Vec<char>, s: &str)
    ensures
        final(dst)@ == old(dst)@ + s@,
{
    let c = chars_of(s);
    push_all(dst, c.as_slice());
}

/// `s` without leading and trailing whitespace.
pub fn trim_chars(s: &[char]) -> (r: Vec<char>)
    ensures
        r@ == trim(s@),
{
    let n = s.len();
    let mut a: usize = 0;
    while a < n && char_is_ws(s[a])
        invariant
            a <= n,
            n == s@.len(),
            forall|i: int| 0 <= i < a ==> is_ws(#[trigger] s@[i]),
        decreases n - a,
    {
        a = a + 1;
    }
    proof {
        lemma_trim_start_char(s@, a as int);
    }
    let mut b: usize = n;
    while b > 0 && char_is_ws(s[b - 1])
        invariant
            b <= n,
            n == s@.len(),
            forall|i: int| b <= i < n ==> is_ws(#[trigger] s@[i]),
        decreases b,
    {
        b = b - 1;
    }
    proof {
        lemma_trim_end_char(s@, b as int);
    }
    let mut r: Vec<char> = Vec::new();
    if a < b {
        let mut i = a;
        while i < b
            invariant
                a <= i <= b,
                b <= n,
                n == s@.len(),
                r@ == s@.subrange(a as int, i as int),
            decreases b - i,
        {
            r.push(s[i]);
            assert(r@ =~= s@.subrange(a as int, i + 1));
            i = i + 1;
        }
    }
    assert(a >= b ==> r@ =~= Seq::<char>::empty());
    r
}

/// Pieces of `s` separated by `'\n'` (always at least one piece).
pub open spec fn split_nl(s: Seq<char>) -> Seq<Seq<char>>
    decreases s.len(),
{
    if s.len() == 0 {
        seq![Seq::empty()]
    } else {
        let p = split_nl(s.drop_last());
        if s.last() == '\n' {
            p.push(Seq::empty())
        } else {
            p.update(p.len() - 1, p.last().push(s.last()))
        }
    }
}

pub proof fn lemma_split_nl_nonempty(s: Seq<char>)
    ensures
        split_nl(s).len() >= 1,
    decreases s.len(),
{
    if s.len() > 0 {
        lemma_split_nl_nonempty(s.drop_last());
    }
}

/// A line terminated by `'\n'` loses one trailing `'\r'`.
pub open spec fn strip_cr(l: Seq<char>) -> Seq<char> {
    if l.len() > 0 && l.last() == '\r' {
        l.drop_last()
    } else {
        l
    }
}

/// The lines of `s` as `str::lines` yields them: split at `'\n'`, a `'\r'`
/// before the `'\n'` removed, no final empty line for a trailing `'\n'`.
pub open spec fn lines(s: Seq<char>) -> Seq<Seq<char>> {
    let p = split_nl(s);
    let q = if p.last().len() == 0 {
        p.drop_last()
    } else {
        p
    };
    Seq::new(
        q.len(),
        |j: int|
            if j < p.len() - 1 {
                strip_cr(q[j])
            } else {
                q[j]
            },
    )
}

/// Lines of a text, each as its characters.
pub fn split_lines(text: &[char]) -> (r: Vec<Vec<char>>)
    ensures
        r@.len() == lines(text@).len(),
        forall|j: int| 0 <= j < r@.len() ==> #[trigger] r@[j]@ == lines(text@)[j],
{
    let mut pieces: Vec<Vec<char>> = Vec::new();
    pieces.push(Vec::new());
    let mut i: usize = 0;
    while i < text.len()
        invariant
            i <= text@.len(),
            pieces@.len() == split_nl(text@.take(i as int)).len(),
            pieces@.len() >= 1,
            forall|j: int|
                0 <= j < pieces@.len() ==> #[trigger] pieces@[j]@ == split_nl(
                    text@.take(i as int),
                )[j],
        decreases text@.len() - i,
    {
        let c = text[i];
        let ghost pre = text@.take(i as int);
        assert(text@.take(i + 1).drop_last() =~= pre);
        if c == '\n' {
            pieces.push(Vec::new());
        } else {
            let last = pieces.len() - 1;
            let mut cur: Vec<char> = Vec::new();
            std::mem::swap(&mut cur, &mut pieces[last]);
            cur.push(c);
            pieces.set(last, cur);
        }
        i = i + 1;
    }
    assert(text@.take(text@.len() as int) =~= text@);
    let ghost p = split_nl(text@);
    let n = pieces.len();
    let keep = if pieces[n - 1].len() == 0 {
        n - 1
    } else {
        n
    };
    let mut r: Vec<Vec<char>> = Vec::new();
    let mut j: usize = 0;
    while j < keep
        invariant
            j <= keep,
            keep <= n,
            n == pieces@.len(),
            n == p.len(),
            keep == lines(text@).len(),
            forall|k: int| 0 <= k < n ==> #[trigger] pieces@[k]@ == p[k],
            p == split_nl(text@),
            r@.len() == j,
            forall|k: int| 0 <= k < j ==> #[trigger] r@[k]@ == lines(text@)[k],
        decreases keep - j,
    {
        let piece = &pieces[j];
        let mut line: Vec<char> = Vec::new();
        let mut len = piece.len();
        if j + 1 < n && len > 0 && piece[len - 1] == '\r' {
            len = len - 1;
        }
        let mut k: usize = 0;
        while k < len
            invariant
                k <= len,
                len <= piece@.len(),
                line@ == piece@.take(k as int),
            decreases len - k,
        {
            line.push(piece[k]);
            assert(line@ =~= piece@.take(k + 1));
            k = k + 1;
        }
        assert(line@ =~= lines(text@)[j as int]);
        r.push(line);
        j = j + 1;
    }
    r
}

/// The character for a decimal digit.
pub open spec fn digit_char(d: nat) -> char {
    if d == 0 {
        '0'
    } else if d == 1 {
        '1'
    } else if d == 2 {
        '2'
    } else if d == 3 {
        '3'
    } else if d == 4 {
        '4'
    } else if d == 5 {
        '5'
    } else if d == 6 {
        '6'
    } else if d == 7 {
        '7'
    } else if d == 8 {
        '8'
    } else {
        '9'
    }
}

/// Decimal rendering of a natural number, as `to_string` prints it.
pub open spec fn decimal(n: nat) -> Seq<char>
    decreases n,
{
    if n < 10 {
        seq![digit_char(n)]
    } else {
        decimal(n / 10).push(digit_char(n % 10))
    }
}

fn digit_of(d: u64) -> (c: char)
    requires
        d < 10,
    ensures
        c == digit_char(d as nat),
{
    if d == 0 {
        '0'
    } else if d == 1 {
        '1'
    } else if d == 2 {
        '2'
    } else if d == 3 {
        '3'
    } else if d == 4 {
        '4'
    } else if d == 5 {
        '5'
    } else if d == 6 {
        '6'
    } else if d == 7 {
        '7'
    } else if d == 8 {
        '8'
    } else {
        '9'
    }
}

/// Decimal rendering of `n`.
pub fn decimal_chars(n: u64) -> (r: Vec<char>)
    ensures
        r@ == decimal(n as nat),
    decreases n,
{
    if n < 10 {
        let mut v: Vec<char> = Vec::new();
        v.push(digit_of(n));
        assert(v@ =~= seq![digit_char(n as nat)]);
        v
    } else {
        let mut v = decimal_chars(n / 10);
        v.push(digit_of(n % 10));
        v
    }
}

/// Joins pieces with a separator between consecutive pieces.
pub open spec fn join(parts: Seq<Seq<char>>, sep: Seq<char>) -> Seq<char>
    decreases parts.len(),
{
    if parts.len() == 0 {
        Seq::empty()
    } else if parts.len() == 1 {
        parts[0]
    } else {
        join(parts.drop_last(), sep) + sep + parts.last()
    }
}

/// `parts` joined with `sep`.
pub fn join_chars(parts: &Vec<Vec<char>>, sep: &[char]) -> (r: Vec<char>)
    ensures
        r@ == join(parts@.map_values(|p: Vec<char>| p@), sep@),
{
    let ghost views = parts@.map_values(|p: Vec<char>| p@);
    let mut r: Vec<char> = Vec::new();
    let mut i: usize = 0;
    while i < parts.len()
        invariant
            i <= parts@.len(),
            views == parts@.map_values(|p: Vec<char>| p@),
            r@ == join(views.take(i as int), sep@),
        decreases parts@.len() - i,
    {
        assert(views.take(i + 1).drop_last() =~= views.take(i as int));
        if i > 0 {
            push_all(&mut r, sep);
        }
        push_all(&mut r, parts[i].as_slice());
        proof {
            if i == 0 {
                assert(r@ =~= views.take(1)[0]);
            }
        }
        i = i + 1;
    }
    assert(views.take(parts@.len() as int) =~= views);
    r
}

pub proof fn lemma_views_push(old: Seq<Vec<char>>, x: Vec<char>)
    ensures
        old.push(x).map_values(|p: Vec<char>| p@) == old.map_values(|p: Vec<char>| p@).push(x@),
{
    assert(old.push(x).map_values(|p: Vec<char>| p@) =~= old.map_values(|p: Vec<char>| p@).push(x@));
}

/// The view of an optional string.
pub open spec fn opt_str_view(o: Option<String>) -> Option<Seq<char>> {
    match o {
        Some(s) => Some(s@),
        None => None,
    }
}

/// A copy of an optional string.
pub fn clone_opt_string(o: &Option<String>) -> (r: Option<String>)
    ensures
        opt_str_view(r) == opt_str_view(*o),
{
    match o {
        Some(s) => Some(s.clone()),
        None => None,
    }
}

/// Whether `pat` occurs in `s` at position `i`.
pub open spec fn occurs_at(s: Seq<char>, pat: Seq<char>, i: int) -> bool {
    0 <= i && i + pat.len() <= s.len() && s.subrange(i, i + pat.len()) == pat
}

/// Whether `pat` occurs in `s`.
pub open spec fn has_sub(s: Seq<char>, pat: Seq<char>) -> bool {
    exists|i: int| #[trigger] occurs_at(s, pat, i)
}

/// Whether `pat` occurs in `s`.
pub fn contains_chars(s: &[char], pat: &[char]) -> (r: bool)
    ensures
        r == has_sub(s@, pat@),
{
    if pat.len() > s.len() {
        assert forall|i: int| !#[trigger] occurs_at(s@, pat@, i) by {}
        return false;
    }
    let last = s.len() - pat.len();
    let mut i: usize = 0;
    while i <= last
        invariant
            last + pat@.len() == s@.len(),
            i <= last + 1,
            forall|k: int| 0 <= k < i ==> !#[trigger] occurs_at(s@, pat@, k),
        decreases last + 1 - i,
    {
        let mut j: usize = 0;
        let mut ok = true;
        while j < pat.len()
            invariant
                i <= last,
                last + pat@.len() == s@.len(),
                s@.len() == s.len(),
                pat@.len() == pat.len(),
                j <= pat@.len(),
                ok == forall|k: int| 0 <= k < j ==> s@[i + k] == pat@[k],
            decreases pat@.len() - j,
        {
            if s[i + j] != pat[j] {
                ok = false;
            }
            j = j + 1;
        }
        if ok {
            assert(s@.subrange(i as int, i + pat@.len()) =~= pat@);
            assert(occurs_at(s@, pat@, i as int));
            return true;
        }
        proof {
            if occurs_at(s@, pat@, i as int) {
                let k = choose|k: int| 0 <= k < pat@.len() && s@[i + k] != pat@[k];
                assert(s@.subrange(i as int, i + pat@.len())[k] == s@[i + k]);
            }
        }
        if i == last {
            assert forall|k: int| !#[trigger] occurs_at(s@, pat@, k) by {
                if 0 <= k && k + pat@.len() <= s@.len() {
                    assert(k <= i);
                }
            }
            return false;
        }
        i = i + 1;
    }
    assert forall|k: int| !#[trigger] occurs_at(s@, pat@, k) by {
        if 0 <= k && k + pat@.len() <= s@.len() {
            assert(k < i);
        }
    }
    false
}

/// Whether `s` is one of the strings of `v`.
pub fn contains_string(v: &Vec<String>, s: &String) -> (r: bool)
    ensures
        r == string_views(v@).contains(s@),
{
    let mut i: usize = 0;
    while i < v.len()
        invariant
            i <= v@.len(),
            forall|k: int| 0 <= k < i ==> v@[k]@ != s@,
        decreases v@.len() - i,
    {
        if v[i] == *s {
            assert(string_views(v@)[i as int] == s@);
            return true;
        }
        i = i + 1;
    }
    assert forall|k: int| 0 <= k < string_views(v@).len() implies string_views(v@)[k] != s@ by {
        assert(v@[k]@ != s@);
    }
    false
}

/// The first position, from `i` on, at which `pat` occurs in `s`.
pub open spec fn find_from(s: Seq<char>, pat: Seq<char>, i: int) -> Option<int>
    decreases s.len() + 1 - i,
{
    if i < 0 || i + pat.len() > s.len() {
        None
    } else if occurs_at(s, pat, i) {
        Some(i)
    } else {
        find_from(s, pat, i + 1)
    }
}

pub proof fn lemma_find_from(s: Seq<char>, pat: Seq<char>, i: int)
    requires
        0 <= i,
    ensures
        match find_from(s, pat, i) {
            Some(k) => i <= k && k + pat.len() <= s.len() && occurs_at(s, pat, k)
                && forall|j: int| i <= j < k ==> !#[trigger] occurs_at(s, pat, j),
            None => forall|j: int| i <= j ==> !#[trigger] occurs_at(s, pat, j),
        },
    decreases s.len() + 1 - i,
{
    if i + pat.len() > s.len() {
    } else if occurs_at(s, pat, i) {
    } else {
        lemma_find_from(s, pat, i + 1);
    }
}

/// The first position at or after `from` at which `pat` occurs in `s`.
pub fn find_chars(s: &[char], pat: &[char], from: usize) -> (r: Option<usize>)
    ensures
        match r {
            Some(k) => find_from(s@, pat@, from as int) == Some(k as int),
            None => find_from(s@, pat@, from as int) is None,
        },
{
    proof {
        lemma_find_from(s@, pat@, from as int);
    }
    if pat.len() > s.len() || from > s.len() - pat.len() {
        return None;
    }
    let last = s.len() - pat.len();
    let mut i: usize = from;
    while i <= last
        invariant
            from <= i,
            last + pat@.len() == s@.len(),
            s@.len() == s.len(),
            pat@.len() == pat.len(),
            find_from(s@, pat@, from as int) == find_from(s@, pat@, i as int),
        decreases last + 1 - i,
    {
        let mut j: usize = 0;
        let mut ok = true;
        while j < pat.len()
            invariant
                i <= last,
                last + pat@.len() == s@.len(),
                s@.len() == s.len(),
                pat@.len() == pat.len(),
                j <= pat@.len(),
                ok == forall|k: int| 0 <= k < j ==> s@[i + k] == pat@[k],
            decreases pat@.len() - j,
        {
            if s[i + j] != pat[j] {
                ok = false;
            }
            j = j + 1;
        }
        if ok {
            assert(s@.subrange(i as int, i + pat@.len()) =~= pat@);
            assert(occurs_at(s@, pat@, i as int));
            return Some(i);
        }
        proof {
            if occurs_at(s@, pat@, i as int) {
                let k = choose|k: int| 0 <= k < pat@.len() && s@[i + k] != pat@[k];
                assert(s@.subrange(i as int, i + pat@.len())[k] == s@[i + k]);
            }
        }
        assert(!occurs_at(s@, pat@, i as int));
        assert(find_from(s@, pat@, i as int) == find_from(s@, pat@, i + 1));
        if i == last {
            assert(find_from(s@, pat@, i + 1) is None);
            return None;
        }
        i = i + 1;
    }
    None
}

/// Pieces of `s` separated by `sep` (always at least one piece), as
/// `str::split` yields them.
pub open spec fn split_on(s: Seq<char>, sep: char) -> Seq<Seq<char>>
    decreases s.len(),
{
    if s.len() == 0 {
        seq![Seq::empty()]
    } else {
        let p = split_on(s.drop_last(), sep);
        if s.last() == sep {
            p.push(Seq::empty())
        } else {
            p.update(p.len() - 1, p.last().push(s.last()))
        }
    }
}

pub proof fn lemma_split_on_nonempty(s: Seq<char>, sep: char)
    ensures
        split_on(s, sep).len() >= 1,
    decreases s.len(),
{
    if s.len() > 0 {
        lemma_split_on_nonempty(s.drop_last(), sep);
    }
}

/// The pieces of `text` separated by `sep`.
pub fn split_chars(text: &[char], sep: char) -> (r: Vec<Vec<char>>)
    ensures
        r@.len() == split_on(text@, sep).len(),
        forall|j: int| 0 <= j < r@.len() ==> #[trigger] r@[j]@ == split_on(text@, sep)[j],
{
    let mut pieces: Vec<Vec<char>> = Vec::new();
    pieces.push(Vec::new());
    let mut i: usize = 0;
    while i < text.len()
        invariant
            i <= text@.len(),
            pieces@.len() == split_on(text@.take(i as int), sep).len(),
            pieces@.len() >= 1,
            forall|j: int| 0 <= j < pieces@.len() ==> #[trigger] pieces@[j]@ == split_on(text@.take(i as int), sep)[j],
        decreases text@.len() - i,
    {
        let ch = text[i];
        assert(text@.take(i + 1).drop_last() =~= text@.take(i as int));
        proof {
            lemma_split_on_nonempty(text@.take(i as int), sep);
        }
        if ch == sep {
            pieces.push(Vec::new());
        } else {
            let last = pieces.len() - 1;
            let mut cur: Vec<char> = Vec::new();
            std::mem::swap(&mut cur, &mut pieces[last]);
            cur.push(ch);
            pieces.set(last, cur);
        }
        i = i + 1;
    }
    assert(text@.take(text@.len() as int) =~= text@);
    pieces
}

/// The characters of `s` from `a` to `b`.
pub fn slice_chars(s: &[char], a: usize, b: usize) -> (r: Vec<char>)
    requires
        a <= b <= s@.len(),
    ensures
        r@ == s@.subrange(a as int, b as int),
{
    let mut r: Vec<char> = Vec::new();
    let mut i: usize = a;
    while i < b
        invariant
            a <= i <= b,
            b <= s@.len(),
            r@ == s@.subrange(a as int, i as int),
        decreases b - i,
    {
        r.push(s[i]);
        assert(r@ =~= s@.subrange(a as int, i + 1));
        i = i + 1;
    }
    r
}

/// The concatenation of three strings.
pub fn concat3(a: &str, b: &str, c: &str) -> (r: String)
    ensures
        r@ == a@ + b@ + c@,
{
    let mut v: Vec<char> = Vec::new();
    push_str(&mut v, a);
    push_str(&mut v, b);
    push_str(&mut v, c);
    string_from_chars(v.as_slice())
}

/// Whether two strings have the same characters.
pub fn str_eq(a: &str, b: &str) -> (r: bool)
    ensures
        r == (a@ == b@),
{
    let x = chars_of(a);
    let y = chars_of(b);
    chars_eq(x.as_slice(), y.as_slice())
}

/// `v` without the string `s`, in order.
pub fn without_string(v: &Vec<String>, s: &String) -> (r: Vec<String>)
    ensures
        forall|x: Seq<char>| #[trigger] string_views(r@).contains(x) <==> (string_views(v@).contains(x) && x != s@),
        string_views(v@).no_duplicates() ==> string_views(r@).no_duplicates(),
{
    let ghost vs = string_views(v@);
    let mut out: Vec<String> = Vec::new();
    let mut i: usize = 0;
    while i < v.len()
        invariant
            i <= v@.len(),
            vs == string_views(v@),
            forall|x: Seq<char>| #[trigger] string_views(out@).contains(x) <==> (vs.take(i as int).contains(x) && x != s@),
            vs.no_duplicates() ==> string_views(out@).no_duplicates(),
        decreases v@.len() - i,
    {
        let ghost before = string_views(out@);
        proof {
            assert(vs.take(i + 1) =~= vs.take(i as int).push(vs[i as int]));
        }
        if !(v[i] == *s) {
            out.push(v[i].clone());
            proof {
                assert(string_views(out@) =~= before.push(vs[i as int]));
                if vs.no_duplicates() && before.contains(vs[i as int]) {
                    let j = choose|j: int| 0 <= j < vs.take(i as int).len() && vs.take(i as int)[j] == vs[i as int];
                    assert(vs[j] == vs[i as int]);
                }
                assert forall|x: Seq<char>| #[trigger] string_views(out@).contains(x) <==> (vs.take(i + 1).contains(x) && x != s@) by {
                    if string_views(out@).contains(x) && x != vs[i as int] {
                        let j = choose|j: int| 0 <= j < string_views(out@).len() && string_views(out@)[j] == x;
                        assert(before[j] == x);
                        assert(before.contains(x));
                        let t0 = vs.take(i as int);
                        let j2 = choose|j2: int| 0 <= j2 < t0.len() && t0[j2] == x;
                        assert(vs.take(i + 1)[j2] == x);
                    }
                    if vs.take(i + 1).contains(x) && x != s@ && x != vs[i as int] {
                        let t1 = vs.take(i + 1);
                        let j = choose|j: int| 0 <= j < t1.len() && t1[j] == x;
                        assert(vs.take(i as int)[j] == x);
                        assert(before.contains(x));
                        let b = choose|b: int| 0 <= b < before.len() && before[b] == x;
                        assert(string_views(out@)[b] == x);
                    }
                    if x == vs[i as int] {
                        assert(string_views(out@)[before.len() as int] == x);
                        assert(vs.take(i + 1)[i as int] == x);
                    }
                }
            }
        } else {
            proof {
                assert forall|x: Seq<char>| #[trigger] string_views(out@).contains(x) <==> (vs.take(i + 1).contains(x) && x != s@) by {
                    if vs.take(i + 1).contains(x) && x != s@ {
                        let t1 = vs.take(i + 1);
                        let j = choose|j: int| 0 <= j < t1.len() && t1[j] == x;
                        assert(vs.take(i as int)[j] == x);
                    }
                    if vs.take(i as int).contains(x) {
                        let j = choose|j: int| 0 <= j < vs.take(i as int).len() && vs.take(i as int)[j] == x;
                        assert(vs.take(i + 1)[j] == x);
                    }
                }
            }
        }
        i = i + 1;
    }
    assert(vs.take(v@.len() as int) =~= vs);
    out
}

/// Decimal rendering of `n`, as a string.
pub fn decimal_string(n: u64) -> (r: String)
    ensures
        r@ == decimal(n as nat),
{
    let v = decimal_chars(n);
    string_from_chars(v.as_slice())
}

/// The digits of a fraction of a second given in milliseconds (1 to
/// 999), three places with trailing zeros dropped.
#[verifier::opaque]
pub open spec fn millis_fraction(r: nat) -> Seq<char> {
    if r % 100 == 0 {
        seq![digit_char(r / 100)]
    } else if r % 10 == 0 {
        seq![digit_char(r / 100), digit_char((r / 10) % 10)]
    } else {
        seq![digit_char(r / 100), digit_char((r / 10) % 10), digit_char(r % 10)]
    }
}

/// `Debug` rendering of `Duration::from_millis(ms)`: `0ns` for zero,
/// whole milliseconds below a second (`20ms`), and otherwise seconds with
/// the fraction's trailing zeros dropped (`300s`, `1.05s`).
#[verifier::opaque]
pub open spec fn duration_debug_text(ms: u64) -> Seq<char> {
    if ms == 0 {
        "0ns"@
    } else if ms < 1000 {
        decimal(ms as nat) + "ms"@
    } else {
        decimal((ms / 1000) as nat) + (if ms % 1000 == 0 {
            Seq::<char>::empty()
        } else {
            "."@ + millis_fraction((ms % 1000) as nat)
        }) + "s"@
    }
}

} // verus!
