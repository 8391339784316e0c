//! Character-level text utilities: whitespace, trimming, line splitting and
//! substring search, all stated over `Seq<char>`.
use vstd::prelude::*;

verus! {

/// Appends one character to a string (`String::push`).
/// Trusted: std documents that `push` appends the given char to the end of
/// the string; the contract claims exactly that.
#[verifier::external_body]
pub(crate) fn push_char(s: &mut String, c: char)
    ensures
        final(s)@ == old(s)@.push(c),
{
    s.push(c);
}

/// The characters of `s`, in order.
pub fn chars_of(s: &str) -> (v: Vec<char>)
    ensures
        v@ == s@,
{
    let mut v: Vec<char> = Vec::new();
    for c in it: s.chars()
        invariant
            v@ == it.seq().take(it.index()),
    {
        v.push(c);
    }
    v
}

/// Appends the characters `v[from..to]` to `s`.
pub fn append_chars(s: &mut String, v: &Vec<char>, from: usize, to: usize)
    requires
        from <= to <= v@.len(),
    ensures
        final(s)@ == old(s)@ + v@.subrange(from as int, to as int),
{
    let mut i = from;
    while i < to
        invariant
            from <= i <= to <= v@.len(),
            s@ == old(s)@ + v@.subrange(from as int, i as int),
        decreases to - i,
    {
        push_char(s, v[i]);
        assert(v@.subrange(from as int, i + 1) =~= v@.subrange(from as int, i as int).push(v@[i as int]));
        i = i + 1;
    }
}

/// A string holding the characters `v[from..to]`.
pub fn string_of(v: &Vec<char>, from: usize, to: usize) -> (s: String)
    requires
        from <= to <= v@.len(),
    ensures
        s@ == v@.subrange(from as int, to as int),
{
    let mut s = String::new();
    append_chars(&mut s, v, from, to);
    s
}

/// Whether `c` has the Unicode `White_Space` property, which is what
/// `char::is_whitespace` tests.
pub open spec fn is_white_space(c: char) -> bool {
    let u = c as u32;
    ||| 0x09 <= u <= 0x0D
    ||| u == 0x20
    ||| u == 0x85
    ||| u == 0xA0
    ||| u == 0x1680
    ||| 0x2000 <= u <= 0x200A
    ||| u == 0x2028
    ||| u == 0x2029
    ||| u == 0x202F
    ||| u == 0x205F
    ||| u == 0x3000
}

/// Executable test of the Unicode `White_Space` property.
pub fn is_whitespace(c: char) -> (r: bool)
    ensures
        r == is_white_space(c),
{
    let u = c as u32;
    (0x09 <= u && u <= 0x0D) || u == 0x20 || u == 0x85 || u == 0xA0 || u == 0x1680 || (0x2000
        <= u && u <= 0x200A) || u == 0x2028 || u == 0x2029 || u == 0x202F || u == 0x205F || u
        == 0x3000
}

/// `s` without its leading whitespace.
pub open spec fn trim_start(s: Seq<char>) -> Seq<char>
    decreases s.len(),
{
    if s.len() > 0 && is_white_space(s[0]) {
        trim_start(s.drop_first())
    } else {
        s
    }
}

/// `s` without its trailing whitespace.
pub open spec fn trim_end(s: Seq<char>) -> Seq<char>
    decreases s.len(),
{
    if s.len() > 0 && is_white_space(s.last()) {
        trim_end(s.drop_last())
    } else {
        s
    }
}

/// `s` without leading and trailing whitespace (`str::trim`).
pub open spec fn trim(s: Seq<char>) -> Seq<char> {
    trim_end(trim_start(s))
}

/// `s` with leading and trailing whitespace removed, as `str::trim` does.
pub fn trim_chars(s: &str) -> (r: String)
    ensures
        r@ == trim(s@),
{
    let v = chars_of(s);
    let n = v.len();
    let mut a: usize = 0;
    assert(v@.subrange(0, n as int) =~= v@);
    while a < n && is_whitespace(v[a])
        invariant
            a <= n == v@.len(),
            trim_start(v@) == trim_start(v@.subrange(a as int, n as int)),
        decreases n - a,
    {
        assert(v@.subrange(a as int, n as int).drop_first() =~= v@.subrange(a + 1, n as int));
        a = a + 1;
    }
    let mut b: usize = n;
    while b > a && is_whitespace(v[b - 1])
        invariant
            a <= b <= n == v@.len(),
            trim(v@) == trim_end(v@.subrange(a as int, b as int)),
        decreases b - a,
    {
        assert(v@.subrange(a as int, b as int).drop_last() =~= v@.subrange(a as int, b - 1));
        b = b - 1;
    }
    string_of(&v, a, b)
}

/// `l` without one trailing carriage return.
pub open spec fn strip_cr(l: Seq<char>) -> Seq<char> {
    if l.len() > 0 && l.last() == '\r' {
        l.drop_last()
    } else {
        l
    }
}

/// The lines of `cur + rest`, where `cur` is the part of the current line
/// read so far: a line ends at each `'\n'`, which is dropped together with
/// one `'\r'` before it; a last line without `'\n'` is kept as it stands, and
/// nothing follows a final `'\n'`.
pub open spec fn lines_from(cur: Seq<char>, rest: Seq<char>) -> Seq<Seq<char>>
    decreases rest.len(),
{
    if rest.len() == 0 {
        if cur.len() == 0 {
            seq![]
        } else {
            seq![cur]
        }
    } else if rest[0] == '\n' {
        seq![strip_cr(cur)] + lines_from(Seq::empty(), rest.drop_first())
    } else {
        lines_from(cur.push(rest[0]), rest.drop_first())
    }
}

/// The lines of `s`, as a buffered reader's `lines()` yields them.
pub open spec fn lines(s: Seq<char>) -> Seq<Seq<char>> {
    lines_from(Seq::empty(), s)
}

/// The views of a vector of character vectors.
pub open spec fn views(v: Seq<Vec<char>>) -> Seq<Seq<char>> {
    v.map_values(|x: Vec<char>| x@)
}

/// Splits `v` into its lines.
pub fn split_lines(v: &Vec<char>) -> (r: Vec<Vec<char>>)
    ensures
        views(r@) == lines(v@),
{
    let n = v.len();
    let mut out: Vec<Vec<char>> = Vec::new();
    let mut cur: Vec<char> = Vec::new();
    let mut i: usize = 0;
    assert(v@.subrange(0, n as int) =~= v@);
    assert(views(out@) + lines_from(cur@, v@) =~= lines(v@));
    while i < n
        invariant
            i <= n == v@.len(),
            views(out@) + lines_from(cur@, v@.subrange(i as int, n as int)) == lines(v@),
        decreases n - i,
    {
        let ghost rest = v@.subrange(i as int, n as int);
        assert(rest.drop_first() =~= v@.subrange(i + 1, n as int));
        assert(rest[0] == v@[i as int]);
        let ghost old_out = out@;
        let ghost old_cur = cur@;
        if v[i] == '\n' {
            let len = cur.len();
            if len > 0 && cur[len - 1] == '\r' {
                cur.pop();
                assert(cur@ =~= old_cur.drop_last());
            }
            assert(cur@ == strip_cr(old_cur));
            out.push(cur);
            assert(views(out@) =~= views(old_out).push(strip_cr(old_cur)));
            cur = Vec::new();
            assert(views(out@) + lines_from(cur@, v@.subrange(i + 1, n as int)) =~= views(old_out)
                + lines_from(old_cur, rest));
        } else {
            cur.push(v[i]);
        }
        i = i + 1;
    }
    proof {
        assert(v@.subrange(n as int, n as int) =~= Seq::<char>::empty());
    }
    if cur.len() > 0 {
        out.push(cur);
    }
    proof {
        assert(views(out@) =~= lines(v@));
    }
    out
}

/// Whether `pat` occurs in `s` starting at index `i`.
pub open spec fn occurs_at(s: Seq<char>, pat: Seq<char>, i: int) -> bool {
    0 <= i && i + pat.len() <= s.len() && s.subrange(i, i + pat.len()) == pat
}

/// Whether `pat` occurs somewhere in `s` (`str::contains`).
pub open spec fn contains(s: Seq<char>, pat: Seq<char>) -> bool {
    exists|i: int| occurs_at(s, pat, i)
}

/// Whether `pat` occurs in `s` at `i`, checked character by character.
fn matches_at(s: &Vec<char>, pat: &Vec<char>, i: usize) -> (r: bool)
    requires
        i + pat@.len() <= s@.len(),
    ensures
        r == occurs_at(s@, pat@, i as int),
{
    let n = s.len();
    let mut k: usize = 0;
    while k < pat.len()
        invariant
            n == s@.len(),
            i + pat@.len() <= s@.len(),
            k <= pat@.len(),
            forall|j: int| 0 <= j < k ==> s@[i + j] == pat@[j],
        decreases pat@.len() - k,
    {
        if s[i + k] != pat[k] {
            assert(s@.subrange(i as int, i + pat@.len())[k as int] != pat@[k as int]);
            return false;
        }
        k = k + 1;
    }
    assert(s@.subrange(i as int, i + pat@.len()) =~= pat@);
    true
}

/// Whether `pat` occurs somewhere in `s`.
pub fn contains_chars(s: &Vec<char>, pat: &Vec<char>) -> (r: bool)
    ensures
        r == contains(s@, pat@),
{
    if pat.len() > s.len() {
        assert forall|i: int| !occurs_at(s@, pat@, i) by {}
        return false;
    }
    let last = s.len() - pat.len();
    let mut i: usize = 0;
    loop
        invariant
            last + pat@.len() == s@.len(),
            i <= last,
            forall|j: int| 0 <= j < i ==> !occurs_at(s@, pat@, j),
        decreases last - i,
    {
        if matches_at(s, pat, i) {
            return true;
        }
        if i == last {
            assert forall|j: int| !occurs_at(s@, pat@, j) by {
                if 0 <= j < i {
                }
            }
            return false;
        }
        i = i + 1;
    }
}

/// `s` with every `'\n'` turned into a space, which is what splitting on
/// `"\n"` and joining with `" "` gives.
pub open spec fn newlines_to_spaces(s: Seq<char>) -> Seq<char> {
    s.map_values(|c: char| if c == '\n' { ' ' } else { c })
}

/// Concatenation of a sequence of strings.
pub open spec fn concat(parts: Seq<Seq<char>>) -> Seq<char>
    decreases parts.len(),
{
    if parts.len() == 0 {
        Seq::empty()
    } else {
        concat(parts.drop_last()) + parts.last()
    }
}

/// The fields of `cur + rest` separated by `sep`, where `cur` is the part of
/// the current field read so far (`str::split` with a one-character
/// pattern: there is always at least one field).
pub open spec fn fields_from(cur: Seq<char>, rest: Seq<char>, sep: char) -> Seq<Seq<char>>
    decreases rest.len(),
{
    if rest.len() == 0 {
        seq![cur]
    } else if rest[0] == sep {
        seq![cur] + fields_from(Seq::empty(), rest.drop_first(), sep)
    } else {
        fields_from(cur.push(rest[0]), rest.drop_first(), sep)
    }
}

/// The fields of `s` separated by `sep`.
pub open spec fn fields(s: Seq<char>, sep: char) -> Seq<Seq<char>> {
    fields_from(Seq::empty(), s, sep)
}

/// Splits `v` into its fields separated by `sep`.
pub fn split_fields(v: &Vec<char>, sep: char) -> (r: Vec<Vec<char>>)
    ensures
        views(r@) == fields(v@, sep),
{
    let n = v.len();
    let mut out: Vec<Vec<char>> = Vec::new();
    let mut cur: Vec<char> = Vec::new();
    let mut i: usize = 0;
    assert(v@.subrange(0, n as int) =~= v@);
    assert(views(out@) + fields_from(cur@, v@, sep) =~= fields(v@, sep));
    while i < n
        invariant
            i <= n == v@.len(),
            views(out@) + fields_from(cur@, v@.subrange(i as int, n as int), sep) == fields(v@, sep),
        decreases n - i,
    {
        let ghost rest = v@.subrange(i as int, n as int);
        assert(rest.drop_first() =~= v@.subrange(i + 1, n as int));
        assert(rest[0] == v@[i as int]);
        let ghost old_out = out@;
        let ghost old_cur = cur@;
        if v[i] == sep {
            out.push(cur);
            assert(views(out@) =~= views(old_out).push(old_cur));
            cur = Vec::new();
            assert(views(out@) + fields_from(cur@, v@.subrange(i + 1, n as int), sep) =~= views(
                old_out,
            ) + fields_from(old_cur, rest, sep));
        } else {
            cur.push(v[i]);
        }
        i = i + 1;
    }
    proof {
        assert(v@.subrange(n as int, n as int) =~= Seq::<char>::empty());
    }
    out.push(cur);
    proof {
        assert(views(out@) =~= fields(v@, sep));
    }
    out
}

/// The text whose lines are `ls`, each followed by a line break.
pub open spec fn unlines(ls: Seq<Seq<char>>) -> Seq<char> {
    concat(ls.map_values(|l: Seq<char>| l + seq!['\n']))
}

/// A concatenation starts with its first part.
pub proof fn lemma_concat_first(parts: Seq<Seq<char>>)
    requires
        parts.len() > 0,
    ensures
        concat(parts) == parts[0] + concat(parts.drop_first()),
    decreases parts.len(),
{
    if parts.len() == 1 {
        assert(parts.drop_last() =~= Seq::<Seq<char>>::empty());
        assert(parts.drop_first() =~= Seq::<Seq<char>>::empty());
        assert(concat(parts.drop_last()) == Seq::<char>::empty());
        assert(concat(parts.drop_first()) == Seq::<char>::empty());
        assert(concat(parts) =~= parts[0]);
    } else {
        lemma_concat_first(parts.drop_last());
        assert(parts.drop_last().drop_first() =~= parts.drop_first().drop_last());
        assert(parts.drop_first().last() == parts.last());
        assert(concat(parts) =~= parts[0] + concat(parts.drop_first()));
    }
}

/// Reading characters without a line break only extends the current line.
proof fn lemma_lines_from_plain(cur: Seq<char>, x: Seq<char>, rest: Seq<char>)
    requires
        !x.contains('\n'),
    ensures
        lines_from(cur, x + rest) == lines_from(cur + x, rest),
    decreases x.len(),
{
    if x.len() == 0 {
        assert(x + rest =~= rest);
        assert(cur + x =~= cur);
    } else {
        assert((x + rest)[0] == x[0]);
        assert((x + rest).drop_first() =~= x.drop_first() + rest);
        assert(!x.drop_first().contains('\n')) by {
            if x.drop_first().contains('\n') {
                let k = choose|k: int| 0 <= k < x.drop_first().len() && x.drop_first()[k] == '\n';
                assert(x[k + 1] == '\n');
            }
        }
        assert(x[0] != '\n');
        lemma_lines_from_plain(cur.push(x[0]), x.drop_first(), rest);
        assert(cur.push(x[0]) + x.drop_first() =~= cur + x);
    }
}

/// Splitting lines, each ended by a line break and holding none, gives the
/// lines back, each without one trailing carriage return.
pub proof fn lemma_lines_unlines(ls: Seq<Seq<char>>)
    requires
        forall|i: int| 0 <= i < ls.len() ==> !(#[trigger] ls[i]).contains('\n'),
    ensures
        lines(unlines(ls)) == ls.map_values(|l: Seq<char>| strip_cr(l)),
    decreases ls.len(),
{
    let f = |l: Seq<char>| l + seq!['\n'];
    if ls.len() == 0 {
        assert(ls.map_values(f) =~= Seq::<Seq<char>>::empty());
        assert(unlines(ls) =~= Seq::<char>::empty());
        assert(ls.map_values(|l: Seq<char>| strip_cr(l)) =~= Seq::<Seq<char>>::empty());
    } else {
        let rest = ls.drop_first();
        assert forall|i: int| 0 <= i < rest.len() implies !(#[trigger] rest[i]).contains('\n') by {
            assert(rest[i] == ls[i + 1]);
        }
        lemma_lines_unlines(rest);
        lemma_concat_first(ls.map_values(f));
        assert(ls.map_values(f).drop_first() =~= rest.map_values(f));
        let tail = unlines(rest);
        assert(unlines(ls) =~= ls[0] + (seq!['\n'] + tail));
        assert(!ls[0].contains('\n'));
        lemma_lines_from_plain(Seq::empty(), ls[0], seq!['\n'] + tail);
        assert(Seq::<char>::empty() + ls[0] =~= ls[0]);
        assert((seq!['\n'] + tail).drop_first() =~= tail);
        assert(lines(unlines(ls)) == seq![strip_cr(ls[0])] + lines(tail));
        assert(lines(unlines(ls)) =~= ls.map_values(|l: Seq<char>| strip_cr(l)));
    }
}

/// A line read by `lines_from` holds no line break.
proof fn lemma_lines_from_no_newline(cur: Seq<char>, rest: Seq<char>)
    requires
        !cur.contains('\n'),
    ensures
        forall|i: int|
            0 <= i < lines_from(cur, rest).len() ==> !(#[trigger] lines_from(cur, rest)[i]).contains(
                '\n',
            ),
    decreases rest.len(),
{
    if rest.len() == 0 {
        if cur.len() > 0 {
            assert(lines_from(cur, rest) == seq![cur]);
            assert forall|i: int| 0 <= i < lines_from(cur, rest).len() implies !(
            #[trigger] lines_from(cur, rest)[i]).contains('\n') by {
                assert(lines_from(cur, rest)[i] == cur);
            }
        }
    } else if rest[0] == '\n' {
        assert(!Seq::<char>::empty().contains('\n'));
        lemma_lines_from_no_newline(Seq::empty(), rest.drop_first());
        let l = strip_cr(cur);
        assert(!l.contains('\n')) by {
            if l.contains('\n') {
                let k = choose|k: int| 0 <= k < l.len() && l[k] == '\n';
                assert(cur[k] == '\n');
            }
        }
        let tail = lines_from(Seq::empty(), rest.drop_first());
        assert(lines_from(cur, rest) == seq![l] + tail);
        assert forall|i: int| 0 <= i < lines_from(cur, rest).len() implies !(
        #[trigger] lines_from(cur, rest)[i]).contains('\n') by {
            if i > 0 {
                assert(lines_from(cur, rest)[i] == tail[i - 1]);
            }
        }
    } else {
        let next = cur.push(rest[0]);
        assert(!next.contains('\n')) by {
            if next.contains('\n') {
                let k = choose|k: int| 0 <= k < next.len() && next[k] == '\n';
                if k < cur.len() {
                    assert(cur[k] == '\n');
                }
            }
        }
        lemma_lines_from_no_newline(next, rest.drop_first());
        assert(lines_from(cur, rest) == lines_from(next, rest.drop_first()));
    }
}

/// No line of a text holds a line break.
pub proof fn lemma_lines_no_newline(s: Seq<char>)
    ensures
        forall|i: int| 0 <= i < lines(s).len() ==> !(#[trigger] lines(s)[i]).contains('\n'),
{
    lemma_lines_from_no_newline(Seq::empty(), s);
}

/// A character that is in neither part is not in their concatenation.
pub proof fn lemma_concat_lacks(a: Seq<char>, b: Seq<char>, x: char)
    requires
        !a.contains(x),
        !b.contains(x),
    ensures
        !(a + b).contains(x),
{
    if (a + b).contains(x) {
        let k = choose|k: int| 0 <= k < (a + b).len() && (a + b)[k] == x;
        if k < a.len() {
            assert(a[k] == x);
        } else {
            assert(b[k - a.len()] == x);
        }
    }
}

/// A pattern without the character `q` that is in neither `p` nor `c` is
/// not in `p + c + [q]` when `p` ends in `q`.
pub proof fn lemma_not_contains_quoted(p: Seq<char>, c: Seq<char>, q: char, pat: Seq<char>)
    requires
        p.len() > 0,
        p.last() == q,
        pat.len() > 0,
        !pat.contains(q),
        !contains(p, pat),
        !contains(c, pat),
    ensures
        !contains(p + c + seq![q], pat),
{
    let s = p + c + seq![q];
    if contains(s, pat) {
        let i = choose|i: int| occurs_at(s, pat, i);
        let n = pat.len() as int;
        assert(s.subrange(i, i + n) == pat);
        if i + n <= p.len() {
            assert(p.subrange(i, i + n) =~= s.subrange(i, i + n));
            assert(occurs_at(p, pat, i));
        } else if i < p.len() {
            assert(s[p.len() - 1] == q);
            assert(pat[p.len() - 1 - i] == s.subrange(i, i + n)[p.len() - 1 - i]);
            assert(pat.contains(q));
        } else if i + n <= p.len() + c.len() {
            assert(c.subrange(i - p.len(), i - p.len() + n) =~= s.subrange(i, i + n));
            assert(occurs_at(c, pat, i - p.len()));
        } else {
            let k: int = (p.len() + c.len()) as int;
            assert(s[k] == q);
            assert(pat[k - i] == s.subrange(i, i + n)[k - i]);
            assert(pat.contains(q));
        }
    }
}

/// Splitting always gives at least one field.
proof fn lemma_fields_from_nonempty(cur: Seq<char>, rest: Seq<char>, sep: char)
    ensures
        fields_from(cur, rest, sep).len() >= 1,
    decreases rest.len(),
{
    if rest.len() == 0 {
    } else if rest[0] == sep {
        lemma_fields_from_nonempty(Seq::empty(), rest.drop_first(), sep);
    } else {
        lemma_fields_from_nonempty(cur.push(rest[0]), rest.drop_first(), sep);
    }
}

/// A text has at least one field, whatever the separator.
pub proof fn lemma_fields_nonempty(s: Seq<char>, sep: char)
    ensures
        fields(s, sep).len() >= 1,
{
    lemma_fields_from_nonempty(Seq::empty(), s, sep);
}

} // verus!
