//! Character-level helpers on strings: splitting into lines, trimming,
//! ASCII case folding and decimal digits.

use vstd::prelude::*;

verus! {

/// `String::push`: appends one character.
#[verifier::external_body]
pub fn push_char(s: &mut String, c: char)
    ensures
        final(s)@ == old(s)@.push(c),
{
    s.push(c);
}

/// The characters of `s`, in order.
pub fn chars_of(s: &str) -> (r: Vec<char>)
    ensures
        r@ == s@,
{
    let mut out: Vec<char> = Vec::new();
    for c in it: s.chars()
        invariant
            it.seq() == s@,
            out@ == s@.take(it.index() as int),
    {
        proof {
            assert(s@.take(it.index() + 1) =~= s@.take(it.index() as int).push(c));
        }
        out.push(c);
    }
    proof {
        assert(s@.take(s@.len() as int) =~= s@);
    }
    out
}

/// A `String` holding `cs[from..to]`.
pub fn string_from(cs: &Vec<char>, from: usize, to: usize) -> (r: String)
    requires
        from <= to <= cs@.len(),
    ensures
        r@ == cs@.subrange(from as int, to as int),
{
    let mut out = String::new();
    let mut i = from;
    while i < to
        invariant
            from <= i <= to <= cs@.len(),
            out@ == cs@.subrange(from as int, i as int),
        decreases to - i,
    {
        push_char(&mut out, cs[i]);
        proof {
            assert(cs@.subrange(from as int, i + 1) =~= cs@.subrange(from as int, i as int).push(
                cs@[i as int],
            ));
        }
        i = i + 1;
    }
    out
}

/// `char::is_whitespace`: the Unicode `White_Space` property.
pub open spec fn is_space(c: char) -> bool {
    ||| c == '\t' || c == '\n' || c == '\u{0B}' || c == '\u{0C}' || c == '\r' || c == ' '
    ||| c == '\u{85}' || c == '\u{A0}' || c == '\u{1680}'
    ||| ('\u{2000}' <= c && c <= '\u{200A}')
    ||| c == '\u{2028}' || c == '\u{2029}' || c == '\u{202F}' || c == '\u{205F}' || c == '\u{3000}'
}

pub fn is_whitespace(c: char) -> (r: bool)
    ensures
        r == is_space(c),
{
    c == '\t' || c == '\n' || c == '\u{0B}' || c == '\u{0C}' || c == '\r' || c == ' ' || c
        == '\u{85}' || c == '\u{A0}' || c == '\u{1680}' || ('\u{2000}' <= c && c <= '\u{200A}')
        || c == '\u{2028}' || c == '\u{2029}' || c == '\u{202F}' || c == '\u{205F}' || c
        == '\u{3000}'
}

/// `s.trim().is_empty()`: every character is whitespace.
pub open spec fn is_blank(s: Seq<char>) -> bool {
    forall|i: int| 0 <= i < s.len() ==> is_space(#[trigger] s[i])
}

/// `str::to_ascii_lowercase` on one character.
pub open spec fn lower_char(c: char) -> char {
    if 'A' <= c && c <= 'Z' {
        ((c as u32) + 32) as char
    } else {
        c
    }
}

/// `str::to_ascii_lowercase`: ASCII capitals folded, everything else kept.
pub open spec fn ascii_lower(s: Seq<char>) -> Seq<char> {
    Seq::new(s.len(), |i: int| lower_char(s[i]))
}

pub fn to_ascii_lowercase(s: &str) -> (r: String)
    ensures
        r@ == ascii_lower(s@),
{
    let cs = chars_of(s);
    let mut out = String::new();
    let mut i: usize = 0;
    while i < cs.len()
        invariant
            i <= cs@.len(),
            cs@ == s@,
            out@ == ascii_lower(s@).take(i as int),
        decreases cs@.len() - i,
    {
        let c = cs[i];
        let l = if 'A' <= c && c <= 'Z' {
            char_from_u32_lower(c)
        } else {
            c
        };
        push_char(&mut out, l);
        proof {
            assert(ascii_lower(s@).take(i + 1) =~= ascii_lower(s@).take(i as int).push(l));
        }
        i = i + 1;
    }
    proof {
        assert(ascii_lower(s@).take(cs@.len() as int) =~= ascii_lower(s@));
    }
    out
}

/// The lower-case letter of an ASCII capital.
fn char_from_u32_lower(c: char) -> (r: char)
    requires
        'A' <= c && c <= 'Z',
    ensures
        r == lower_char(c),
{
    let b: u8 = (c as u8) + 32;
    b as char
}

/// `p` is the position of the first line feed in `s`.
pub open spec fn first_newline_at(s: Seq<char>, p: int) -> bool {
    &&& 0 <= p < s.len()
    &&& s[p] == '\n'
    &&& forall|j: int| 0 <= j < p ==> s[j] != '\n'
}

/// A line without the carriage return that ended it.
pub open spec fn strip_cr(l: Seq<char>) -> Seq<char> {
    if l.len() > 0 && l.last() == '\r' {
        l.drop_last()
    } else {
        l
    }
}

/// `str::lines`: the text split at each `\n` (a `\r` right before it goes
/// too); a final line ending is optional and adds no empty line.
pub open spec fn lines_of(s: Seq<char>) -> Seq<Seq<char>>
    decreases s.len(),
{
    if s.len() == 0 {
        Seq::empty()
    } else if exists|p: int| first_newline_at(s, p) {
        let p = choose|p: int| first_newline_at(s, p);
        seq![strip_cr(s.take(p))] + lines_of(s.skip(p + 1))
    } else {
        seq![s]
    }
}

/// The non-blank lines of `ls`, each with its 1-based line number.
pub open spec fn numbered_nonblank(ls: Seq<Seq<char>>) -> Seq<(nat, Seq<char>)>
    decreases ls.len(),
{
    if ls.len() == 0 {
        Seq::empty()
    } else {
        let r = numbered_nonblank(ls.drop_last());
        if is_blank(ls.last()) {
            r
        } else {
            r.push((ls.len(), ls.last()))
        }
    }
}

pub open spec fn numbered_view(v: Seq<(usize, String)>) -> Seq<(nat, Seq<char>)> {
    Seq::new(v.len(), |i: int| (v[i].0 as nat, v[i].1@))
}

pub proof fn lemma_lines_newline(s: Seq<char>, p: int)
    requires
        first_newline_at(s, p),
    ensures
        lines_of(s) == seq![strip_cr(s.take(p))] + lines_of(s.skip(p + 1)),
{
    let q = choose|q: int| first_newline_at(s, q);
    if q < p {
        assert(s[q] != '\n');
    }
    if q > p {
        assert(s[p] != '\n');
    }
}

proof fn lemma_numbered_push(ls: Seq<Seq<char>>, l: Seq<char>)
    ensures
        numbered_nonblank(ls.push(l)) == if is_blank(l) {
            numbered_nonblank(ls)
        } else {
            numbered_nonblank(ls).push(((ls.len() + 1) as nat, l))
        },
{
    assert(ls.push(l).drop_last() =~= ls);
}

proof fn lemma_blank_push(l: Seq<char>, c: char)
    ensures
        is_blank(l.push(c)) == (is_blank(l) && is_space(c)),
{
    if is_blank(l) && is_space(c) {
        assert forall|i: int| 0 <= i < l.push(c).len() implies is_space(#[trigger] l.push(c)[i]) by {
            if i < l.len() {
                assert(l.push(c)[i] == l[i]);
            }
        }
    }
    if is_blank(l.push(c)) {
        assert(is_space(l.push(c)[l.len() as int]));
        assert forall|i: int| 0 <= i < l.len() implies is_space(#[trigger] l[i]) by {
            assert(l.push(c)[i] == l[i]);
        }
    }
}

proof fn lemma_blank_strip_cr(l: Seq<char>)
    ensures
        is_blank(strip_cr(l)) == is_blank(l),
{
    if l.len() > 0 && l.last() == '\r' {
        assert(is_space(l.last()));
        if is_blank(l.drop_last()) {
            assert forall|i: int| 0 <= i < l.len() implies is_space(#[trigger] l[i]) by {
                if i < l.len() - 1 {
                    assert(l[i] == l.drop_last()[i]);
                }
            }
        }
    }
}

/// Emits one line (`cur`, already without its `\n`) when it is not blank.
fn emit_line(
    out: &mut Vec<(usize, String)>,
    cur: &mut Vec<char>,
    blank: bool,
    count: usize,
    strip: bool,
    Ghost(ls): Ghost<Seq<Seq<char>>>,
)
    requires
        numbered_view(old(out)@) == numbered_nonblank(ls),
        count == ls.len() + 1,
        blank == is_blank(old(cur)@),
    ensures
        numbered_view(final(out)@) == numbered_nonblank(
            ls.push(if strip { strip_cr(old(cur)@) } else { old(cur)@ }),
        ),
{
    proof {
        lemma_numbered_push(ls, if strip { strip_cr(cur@) } else { cur@ });
        lemma_blank_strip_cr(cur@);
    }
    if strip && cur.len() > 0 && cur[cur.len() - 1] == '\r' {
        cur.pop();
    }
    if !blank {
        let line = string_from(cur, 0, cur.len());
        proof {
            assert(cur@.subrange(0, cur@.len() as int) =~= cur@);
        }
        let ghost before = out@;
        out.push((count, line));
        proof {
            assert(numbered_view(out@) =~= numbered_view(before).push((count as nat, line@)));
        }
    }
}

/// The non-blank lines of a newline-delimited text, each with its 1-based
/// line number.
pub fn nonblank_lines(text: &str) -> (r: Vec<(usize, String)>)
    requires
        text@.len() < usize::MAX,
    ensures
        numbered_view(r@) == numbered_nonblank(lines_of(text@)),
{
    let mut out: Vec<(usize, String)> = Vec::new();
    let mut cur: Vec<char> = Vec::new();
    let mut blank = true;
    let mut count: usize = 0;
    let ghost s = text@;
    let ghost mut emitted: Seq<Seq<char>> = Seq::empty();
    let ghost mut start: int = 0;
    proof {
        assert(s.skip(0) =~= s);
        assert(emitted + lines_of(s) =~= lines_of(s));
        assert(cur@ =~= s.subrange(0, 0));
    }
    for c in it: text.chars()
        invariant
            it.seq() == s,
            s.len() < usize::MAX,
            0 <= start <= it.index() <= s.len(),
            cur@ == s.subrange(start, it.index() as int),
            blank == is_blank(cur@),
            forall|j: int| start <= j < it.index() ==> s[j] != '\n',
            lines_of(s) == emitted + lines_of(s.skip(start)),
            numbered_view(out@) == numbered_nonblank(emitted),
            count == emitted.len(),
            count <= it.index(),
    {
        let ghost idx = it.index() as int;
        if c == '\n' {
            proof {
                let t = s.skip(start);
                assert(first_newline_at(t, idx - start)) by {
                    assert forall|j: int| 0 <= j < idx - start implies t[j] != '\n' by {
                        assert(t[j] == s[start + j]);
                    }
                }
                lemma_lines_newline(t, idx - start);
                assert(t.take(idx - start) =~= cur@);
                assert(t.skip(idx - start + 1) =~= s.skip(idx + 1));
                assert(lines_of(s) == emitted.push(strip_cr(cur@)) + lines_of(s.skip(idx + 1)));
            }
            emit_line(&mut out, &mut cur, blank, count + 1, true, Ghost(emitted));
            proof {
                emitted = emitted.push(strip_cr(s.subrange(start, idx)));
                start = idx + 1;
            }
            count = count + 1;
            cur = Vec::new();
            blank = true;
            proof {
                assert(cur@ =~= s.subrange(start, start));
            }
        } else {
            let sp = is_whitespace(c);
            proof {
                assert(s.subrange(start, idx + 1) =~= cur@.push(c));
                lemma_blank_push(cur@, c);
            }
            cur.push(c);
            blank = blank && sp;
        }
    }
    proof {
        let t = s.skip(start);
        assert(t =~= cur@);
        assert forall|p: int| !first_newline_at(t, p) by {
            if 0 <= p < t.len() {
                assert(t[p] == s[start + p]);
            }
        }
    }
    if cur.len() > 0 {
        emit_line(&mut out, &mut cur, blank, count + 1, false, Ghost(emitted));
        proof {
            assert(lines_of(s) == emitted.push(s.skip(start)));
        }
    } else {
        proof {
            assert(lines_of(s) =~= emitted);
        }
    }
    out
}

} // verus!

verus! {

/// `a < b` in the order of `String`: lexicographic by character.
pub open spec fn str_lt(a: Seq<char>, b: Seq<char>) -> bool
    decreases a.len(),
{
    if a.len() == 0 {
        b.len() > 0
    } else if b.len() == 0 {
        false
    } else if a[0] != b[0] {
        (a[0] as int) < (b[0] as int)
    } else {
        str_lt(a.drop_first(), b.drop_first())
    }
}

pub proof fn lemma_lt_irreflexive(a: Seq<char>)
    ensures
        !str_lt(a, a),
    decreases a.len(),
{
    if a.len() > 0 {
        lemma_lt_irreflexive(a.drop_first());
    }
}

pub proof fn lemma_lt_asymmetric(a: Seq<char>, b: Seq<char>)
    ensures
        str_lt(a, b) ==> !str_lt(b, a),
    decreases a.len(),
{
    if a.len() > 0 && b.len() > 0 && a[0] == b[0] {
        lemma_lt_asymmetric(a.drop_first(), b.drop_first());
    }
}

pub proof fn lemma_lt_transitive(a: Seq<char>, b: Seq<char>, c: Seq<char>)
    requires
        str_lt(a, b),
        str_lt(b, c),
    ensures
        str_lt(a, c),
    decreases a.len(),
{
    if a.len() > 0 && b.len() > 0 && c.len() > 0 && a[0] == b[0] && b[0] == c[0] {
        lemma_lt_transitive(a.drop_first(), b.drop_first(), c.drop_first());
    }
}

pub proof fn lemma_lt_total(a: Seq<char>, b: Seq<char>)
    ensures
        a == b || str_lt(a, b) || str_lt(b, a),
    decreases a.len(),
{
    if a.len() > 0 && b.len() > 0 && a[0] == b[0] {
        lemma_lt_total(a.drop_first(), b.drop_first());
        if a.drop_first() == b.drop_first() {
            assert(a =~= seq![a[0]] + a.drop_first());
            assert(b =~= seq![b[0]] + b.drop_first());
        }
    } else if a.len() == 0 && b.len() == 0 {
        assert(a =~= b);
    } else if a.len() > 0 && b.len() > 0 {
        assert((a[0] as int) != (b[0] as int));
    }
}

proof fn lemma_lt_skip(a: Seq<char>, b: Seq<char>, i: int)
    requires
        0 <= i <= a.len(),
        i <= b.len(),
        a.take(i) == b.take(i),
    ensures
        str_lt(a, b) == str_lt(a.skip(i), b.skip(i)),
    decreases i,
{
    if i > 0 {
        assert(a[0] == a.take(i)[0]);
        assert(b[0] == b.take(i)[0]);
        assert(a.drop_first().take(i - 1) =~= a.take(i).drop_first());
        assert(b.drop_first().take(i - 1) =~= b.take(i).drop_first());
        lemma_lt_skip(a.drop_first(), b.drop_first(), i - 1);
        assert(a.drop_first().skip(i - 1) =~= a.skip(i));
        assert(b.drop_first().skip(i - 1) =~= b.skip(i));
    } else {
        assert(a.skip(0) =~= a);
        assert(b.skip(0) =~= b);
    }
}

/// Compares two strings in the order of `String`.
pub fn str_less(a: &str, b: &str) -> (r: bool)
    ensures
        r == str_lt(a@, b@),
{
    let x = chars_of(a);
    let y = chars_of(b);
    let mut i: usize = 0;
    while i < x.len() && i < y.len()
        invariant
            x@ == a@,
            y@ == b@,
            i <= x@.len(),
            i <= y@.len(),
            x@.take(i as int) == y@.take(i as int),
        decreases x@.len() - i,
    {
        if x[i] != y[i] {
            proof {
                lemma_lt_skip(x@, y@, i as int);
            }
            return x[i] < y[i];
        }
        proof {
            assert(x@.take(i + 1) =~= x@.take(i as int).push(x@[i as int]));
            assert(y@.take(i + 1) =~= y@.take(i as int).push(y@[i as int]));
        }
        i = i + 1;
    }
    proof {
        lemma_lt_skip(x@, y@, i as int);
    }
    i == x.len() && i < y.len()
}

/// `dir` joined with a relative file name, as a path: the name alone when the
/// directory is empty, else with one `/` between them.
pub open spec fn joined(dir: Seq<char>, file: Seq<char>) -> Seq<char> {
    if dir.len() == 0 {
        file
    } else if dir.last() == '/' {
        dir + file
    } else {
        dir + "/"@ + file
    }
}

/// `dir` joined with a relative file name (see [`joined`]).
pub fn join(dir: &str, file: &str) -> (r: String)
    ensures
        r@ == joined(dir@, file@),
{
    let cs = chars_of(dir);
    if cs.len() == 0 {
        return crate::json::owned(file);
    }
    let mut s = crate::json::owned(dir);
    if cs[cs.len() - 1] != '/' {
        s.append("/");
    }
    s.append(file);
    s
}

} // verus!
