//! The layout language: a comma-separated list of segments, each either a
//! literal directive (`u <value> <width>bit`) or the name of a field.

use vstd::prelude::*;

verus! {

/// One parsed segment of a layout.
#[derive(Clone, Debug, PartialEq, Eq)]
pub enum Directive {
    /// A literal bit-write directive, kept as written.
    Literal(String),
    /// The name of a field whose own directives stand here.
    FieldRef(String),
}

/// The mathematical form of a [`Directive`].
pub enum DirectiveView {
    Literal(Seq<char>),
    FieldRef(Seq<char>),
}

impl DeepView for Directive {
    type V = DirectiveView;

    open spec fn deep_view(&self) -> DirectiveView {
        match self {
            Directive::Literal(t) => DirectiveView::Literal(t@),
            Directive::FieldRef(n) => DirectiveView::FieldRef(n@),
        }
    }
}

/// The characters that separate nothing: Unicode white space.
pub open spec fn is_space(c: char) -> bool {
    c == '\u{9}' || c == '\u{a}' || c == '\u{b}' || c == '\u{c}' || c == '\u{d}'
        || c == '\u{20}' || c == '\u{85}' || c == '\u{a0}' || c == '\u{1680}'
        || c == '\u{2000}' || c == '\u{2001}' || c == '\u{2002}' || c == '\u{2003}'
        || c == '\u{2004}' || c == '\u{2005}' || c == '\u{2006}' || c == '\u{2007}'
        || c == '\u{2008}' || c == '\u{2009}' || c == '\u{200a}' || c == '\u{2028}'
        || c == '\u{2029}' || c == '\u{202f}' || c == '\u{205f}' || c == '\u{3000}'
}

/// The pieces of `s` between its commas, in order; a string without commas
/// is one piece.
pub open spec fn split_commas(s: Seq<char>) -> Seq<Seq<char>>
    decreases s.len(),
{
    if s.len() == 0 {
        seq![Seq::empty()]
    } else {
        let init = split_commas(s.drop_last());
        if s.last() == ',' {
            init.push(Seq::empty())
        } else {
            init.update(init.len() - 1, init.last().push(s.last()))
        }
    }
}

/// `s` without its leading white space.
pub open spec fn trim_start(s: Seq<char>) -> Seq<char>
    decreases s.len(),
{
    if s.len() > 0 && is_space(s[0]) {
        trim_start(s.drop_first())
    } else {
        s
    }
}

/// `s` without its trailing white space.
pub open spec fn trim_end(s: Seq<char>) -> Seq<char>
    decreases s.len(),
{
    if s.len() > 0 && is_space(s.last()) {
        trim_end(s.drop_last())
    } else {
        s
    }
}

/// `s` without white space at either end.
pub open spec fn trim(s: Seq<char>) -> Seq<char> {
    trim_end(trim_start(s))
}

/// A trimmed, non-empty segment: a literal when it starts with `u `, else a
/// field name.
pub open spec fn classify(t: Seq<char>) -> DirectiveView {
    if t.len() >= 2 && t[0] == 'u' && t[1] == ' ' {
        DirectiveView::Literal(t)
    } else {
        DirectiveView::FieldRef(t)
    }
}

/// The directive of one raw segment: none when it is blank.
pub open spec fn segment_directives(seg: Seq<char>) -> Seq<DirectiveView> {
    if trim(seg).len() == 0 {
        Seq::empty()
    } else {
        seq![classify(trim(seg))]
    }
}

/// The directives of a list of raw segments, in order.
pub open spec fn directives_of(segs: Seq<Seq<char>>) -> Seq<DirectiveView>
    decreases segs.len(),
{
    if segs.len() == 0 {
        Seq::empty()
    } else {
        directives_of(segs.drop_last()) + segment_directives(segs.last())
    }
}

/// The directives of a layout, in the order written.
pub open spec fn parse_layout_spec(s: Seq<char>) -> Seq<DirectiveView> {
    directives_of(split_commas(s))
}

/// Whether `c` is white space.
pub fn is_space_char(c: char) -> (r: bool)
    ensures
        r == is_space(c),
{
    c == '\u{9}' || c == '\u{a}' || c == '\u{b}' || c == '\u{c}' || c == '\u{d}'
        || c == '\u{20}' || c == '\u{85}' || c == '\u{a0}' || c == '\u{1680}'
        || c == '\u{2000}' || c == '\u{2001}' || c == '\u{2002}' || c == '\u{2003}'
        || c == '\u{2004}' || c == '\u{2005}' || c == '\u{2006}' || c == '\u{2007}'
        || c == '\u{2008}' || c == '\u{2009}' || c == '\u{200a}' || c == '\u{2028}'
        || c == '\u{2029}' || c == '\u{202f}' || c == '\u{205f}' || c == '\u{3000}'
}

/// The characters of `s`.
pub fn chars_of(s: &str) -> (r: Vec<char>)
    ensures
        r@ == s@,
{
    let n = s.unicode_len();
    let mut out: Vec<char> = Vec::new();
    let mut i: usize = 0;
    while i < n
        invariant
            n == s@.len(),
            i <= n,
            out@ == s@.take(i as int),
        decreases n - i,
    {
        out.push(s.get_char(i));
        i = i + 1;
        assert(out@ =~= s@.take(i as int));
    }
    assert(out@ =~= s@);
    out
}

/// The bounds of `chars[lo..hi]` without white space at either end.
fn trim_bounds(chars: &Vec<char>, lo: usize, hi: usize) -> (r: (usize, usize))
    requires
        lo <= hi <= chars@.len(),
    ensures
        lo <= r.0 <= r.1 <= hi,
        chars@.subrange(r.0 as int, r.1 as int) == trim(chars@.subrange(lo as int, hi as int)),
{
    let mut a = lo;
    while a < hi && is_space_char(chars[a])
        invariant
            lo <= a <= hi <= chars@.len(),
            trim_start(chars@.subrange(lo as int, hi as int)) == trim_start(
                chars@.subrange(a as int, hi as int),
            ),
        decreases hi - a,
    {
        assert(chars@.subrange(a as int, hi as int).drop_first() =~= chars@.subrange(
            a + 1,
            hi as int,
        ));
        a = a + 1;
    }
    assert(trim_start(chars@.subrange(a as int, hi as int)) == chars@.subrange(a as int, hi as int));
    let mut b = hi;
    while b > a && is_space_char(chars[b - 1])
        invariant
            a <= b <= hi <= chars@.len(),
            trim_end(chars@.subrange(a as int, hi as int)) == trim_end(
                chars@.subrange(a as int, b as int),
            ),
        decreases b - a,
    {
        assert(chars@.subrange(a as int, b as int).drop_last() =~= chars@.subrange(
            a as int,
            b - 1,
        ));
        b = b - 1;
    }
    (a, b)
}

/// Appends the directive of the raw segment `text[lo..hi]`, if it is not blank.
fn push_segment(out: &mut Vec<Directive>, text: &str, chars: &Vec<char>, lo: usize, hi: usize)
    requires
        chars@ == text@,
        lo <= hi <= chars@.len(),
    ensures
        final(out).deep_view() == old(out).deep_view() + segment_directives(
            text@.subrange(lo as int, hi as int),
        ),
{
    let (a, b) = trim_bounds(chars, lo, hi);
    let ghost t = text@.subrange(a as int, b as int);
    if a < b {
        let piece = String::from_str(text.substring_char(a, b));
        let d = if b - a >= 2 && chars[a] == 'u' && chars[a + 1] == ' ' {
            Directive::Literal(piece)
        } else {
            Directive::FieldRef(piece)
        };
        assert(d.deep_view() == classify(t));
        out.push(d);
    }
    assert(final(out).deep_view() =~= old(out).deep_view() + segment_directives(
        text@.subrange(lo as int, hi as int),
    ));
}

/// Parses a layout: splits it at its commas, trims each segment, skips the
/// blank ones and reads each other one as a literal directive when it starts
/// with `u `, else as a field name. The order is kept.
pub fn parse_layout(text: &str) -> (r: Vec<Directive>)
    ensures
        r.deep_view() == parse_layout_spec(text@),
{
    let chars = chars_of(text);
    let n = chars.len();
    let mut out: Vec<Directive> = Vec::new();
    let mut start: usize = 0;
    let mut i: usize = 0;
    proof {
        assert(text@.take(0) =~= Seq::<char>::empty());
    }
    while i < n
        invariant
            chars@ == text@,
            n == chars@.len(),
            start <= i <= n,
            split_commas(text@.take(i as int)).len() >= 1,
            split_commas(text@.take(i as int)).last() == text@.subrange(start as int, i as int),
            out.deep_view() == directives_of(split_commas(text@.take(i as int)).drop_last()),
        decreases n - i,
    {
        let ghost segs = split_commas(text@.take(i as int));
        assert(text@.take(i + 1).drop_last() =~= text@.take(i as int));
        if chars[i] == ',' {
            push_segment(&mut out, text, &chars, start, i);
            assert(split_commas(text@.take(i + 1)) == segs.push(Seq::empty()));
            assert(split_commas(text@.take(i + 1)).drop_last() =~= segs);
            start = i + 1;
        } else {
            let ghost next = split_commas(text@.take(i + 1));
            assert(next.drop_last() =~= segs.drop_last());
            assert(next.last() =~= text@.subrange(start as int, i + 1));
        }
        i = i + 1;
        assert(text@.subrange(start as int, i as int) =~= split_commas(text@.take(i as int)).last());
    }
    assert(text@.take(n as int) =~= text@);
    push_segment(&mut out, text, &chars, start, n);
    out
}

/// An ASCII decimal digit.
pub open spec fn is_digit(c: char) -> bool {
    '0' <= c && c <= '9'
}

/// A non-empty run of ASCII decimal digits.
pub open spec fn all_digits(s: Seq<char>) -> bool {
    s.len() > 0 && forall|i: int| 0 <= i < s.len() ==> is_digit(#[trigger] s[i])
}

/// `t` has the form `u <digits> <digits>bit`, with single spaces.
pub open spec fn literal_form(t: Seq<char>) -> bool {
    &&& t.len() >= 8
    &&& t[0] == 'u'
    &&& t[1] == ' '
    &&& t[t.len() - 3] == 'b'
    &&& t[t.len() - 2] == 'i'
    &&& t[t.len() - 1] == 't'
    &&& exists|k: int|
        2 < k < t.len() - 4 && #[trigger] t[k] == ' ' && all_digits(t.subrange(2, k))
            && all_digits(t.subrange(k + 1, t.len() - 3))
}

/// Whether `text` has the form `u <digits> <digits>bit`.
pub fn is_literal_form(text: &str) -> (r: bool)
    ensures
        r == literal_form(text@),
{
    let c = chars_of(text);
    let n = c.len();
    if n < 8 || c[0] != 'u' || c[1] != ' ' || c[n - 3] != 'b' || c[n - 2] != 'i' || c[n - 1] != 't' {
        return false;
    }
    let ghost t = text@;
    let mut k: usize = 2;
    while k < n - 3 && '0' <= c[k] && c[k] <= '9'
        invariant
            c@ == t,
            n == t.len(),
            n >= 8,
            2 <= k <= n - 3,
            forall|j: int| 2 <= j < k ==> is_digit(#[trigger] t[j]),
        decreases n - k,
    {
        k = k + 1;
    }
    let ghost stop = k as int;
    assert(literal_form(t) ==> (stop > 2 && stop + 1 < n - 3 && t[stop] == ' ' && all_digits(
        t.subrange(stop + 1, t.len() - 3),
    ))) by {
        if literal_form(t) {
            let k2 = choose|k2: int|
                2 < k2 < t.len() - 4 && #[trigger] t[k2] == ' ' && all_digits(t.subrange(2, k2))
                    && all_digits(t.subrange(k2 + 1, t.len() - 3));
            if stop < k2 {
                assert(t.subrange(2, k2)[stop - 2] == t[stop]);
            } else if stop > k2 {
                assert(is_digit(t[k2]));
            }
        }
    }
    if k == 2 || k + 1 >= n - 3 || c[k] != ' ' {
        return false;
    }
    let mut j: usize = k + 1;
    while j < n - 3
        invariant
            c@ == t,
            n == t.len(),
            n >= 8,
            t == text@,
            k + 1 <= j <= n - 3,
            forall|i: int| k + 1 <= i < j ==> is_digit(#[trigger] t[i]),
            literal_form(t) ==> all_digits(t.subrange(k + 1, t.len() - 3)),
        decreases n - 3 - j,
    {
        if !('0' <= c[j] && c[j] <= '9') {
            assert(!literal_form(t)) by {
                if literal_form(t) {
                    assert(t.subrange(k + 1, t.len() - 3)[j - k - 1] == t[j as int]);
                }
            }
            return false;
        }
        j = j + 1;
    }
    assert(all_digits(t.subrange(2, k as int))) by {
        assert forall|i: int| 0 <= i < t.subrange(2, k as int).len() implies is_digit(
            #[trigger] t.subrange(2, k as int)[i],
        ) by {
            assert(t.subrange(2, k as int)[i] == t[i + 2]);
        }
    }
    assert(all_digits(t.subrange(k + 1, t.len() - 3))) by {
        assert forall|i: int| 0 <= i < t.subrange(k + 1, t.len() - 3).len() implies is_digit(
            #[trigger] t.subrange(k + 1, t.len() - 3)[i],
        ) by {
            assert(t.subrange(k + 1, t.len() - 3)[i] == t[i + k + 1]);
        }
    }
    assert(t[k as int] == ' ');
    true
}

proof fn lemma_split_nonempty(s: Seq<char>)
    ensures
        split_commas(s).len() >= 1,
    decreases s.len(),
{
    if s.len() > 0 {
        lemma_split_nonempty(s.drop_last());
    }
}

proof fn lemma_split_at_comma(a: Seq<char>, b: Seq<char>)
    ensures
        split_commas(a + seq![','] + b) == split_commas(a) + split_commas(b),
    decreases b.len(),
{
    let ab = a + seq![','] + b;
    if b.len() == 0 {
        assert(ab.drop_last() =~= a);
        assert(split_commas(ab) =~= split_commas(a) + split_commas(b));
    } else {
        let b0 = b.drop_last();
        lemma_split_at_comma(a, b0);
        lemma_split_nonempty(b0);
        assert(ab.drop_last() =~= a + seq![','] + b0);
        let sa = split_commas(a);
        let sb = split_commas(b0);
        if b.last() == ',' {
            assert(split_commas(ab) =~= sa + split_commas(b));
        } else {
            assert((sa + sb).last() == sb.last());
            assert(split_commas(ab) =~= sa + split_commas(b));
        }
    }
}

proof fn lemma_directives_concat(x: Seq<Seq<char>>, y: Seq<Seq<char>>)
    ensures
        directives_of(x + y) == directives_of(x) + directives_of(y),
    decreases y.len(),
{
    if y.len() == 0 {
        assert(x + y =~= x);
        assert(directives_of(x) + directives_of(y) =~= directives_of(x));
    } else {
        lemma_directives_concat(x, y.drop_last());
        assert((x + y).drop_last() =~= x + y.drop_last());
        assert(directives_of(x + y) =~= directives_of(x) + directives_of(y));
    }
}

/// A layout split at one of its commas parses as its first part followed by
/// its second part.
pub proof fn parse_splits_at_comma(a: Seq<char>, b: Seq<char>)
    ensures
        parse_layout_spec(a + seq![','] + b) == parse_layout_spec(a) + parse_layout_spec(b),
{
    lemma_split_at_comma(a, b);
    lemma_directives_concat(split_commas(a), split_commas(b));
}

} // verus!
