//! What the tolerant XML scanner (`texts_named`) reads back from the simple
//! documents this crate writes: a declaration, a root element with
//! attributes, and elements that hold only text.
use crate::text::{
    decimal, is_digit, is_white, lemma_decimal_digits, lemma_find_from, none_before,
    occurs_at, seq_contains, trim, };
use crate::xmlutil::{
    after_last_colon, apply_tag, flushed, gt, lemma_after_last_colon,
    lemma_token_prefix_at, lemma_trim_start_at, pi_close, tag_text, trim_end_slashes, xml_run, xml_step, XmlScan, XmlStep,
};
use vstd::prelude::*;
use vstd::utf8::encode_utf8;

verus! {

/// An ASCII character.
pub open spec fn ascii(c: char) -> bool {
    '\0' <= c <= '\u{7f}'
}

/// Every character is ASCII.
pub open spec fn all_ascii(s: Seq<char>) -> bool {
    forall|i: int| 0 <= i < s.len() ==> ascii(#[trigger] s[i])
}

/// `c` does not occur in `s`.
pub open spec fn lacks(s: Seq<char>, c: char) -> bool {
    forall|i: int| 0 <= i < s.len() ==> #[trigger] s[i] != c
}

/// `b` holds the ASCII text `s` from index `i` on.
pub open spec fn bytes_at(b: Seq<u8>, i: int, s: Seq<char>) -> bool {
    &&& 0 <= i
    &&& i + s.len() <= b.len()
    &&& forall|k: int| 0 <= k < s.len() ==> b[i + k] == #[trigger] s[k] as u8
}

proof fn lemma_ascii_char(c: char)
    requires
        ascii(c),
    ensures
        (c as u8) as char == c,
        (c as u8) as u32 == c as u32,
{
    vstd::utf8::char_u32_cast(c, c as u32);
    assert((c as u32) < 128) by {
        vstd::utf8::is_ascii_chars_nat_bound(seq![c]);
        assert(vstd::utf8::is_ascii_chars(seq![c]));
        assert(seq![c][0] == c);
    }
    assert(((c as u8) as u32) == (c as u32));
}

/// Text without `<` is read one character per byte into the pending text.
#[verifier::spinoff_prover]
#[verifier::rlimit(50)]
pub proof fn lemma_run_text(b: Seq<u8>, n: Seq<char>, st: XmlScan, s: Seq<char>)
    requires
        bytes_at(b, st.i, s),
        all_ascii(s),
        lacks(s, '<'),
    ensures
        xml_run(b, n, st) == xml_run(
            b,
            n,
            XmlScan { i: st.i + s.len(), stack: st.stack, buf: st.buf + s, out: st.out },
        ),
    decreases s.len(),
{
    if s.len() == 0 {
        assert(st.buf + s =~= st.buf);
        assert(st == XmlScan { i: st.i + s.len(), stack: st.stack, buf: st.buf + s, out: st.out });
    } else {
        let c = s[0];
        assert(b[st.i + 0] == s[0] as u8);
        lemma_ascii_char(c);
        assert(b[st.i] != 60u8) by {
            assert(ascii(c) && c != '<');
            assert((c as u8) as u32 == c as u32);
        }
        let s2 = XmlScan { i: st.i + 1, stack: st.stack, buf: st.buf.push(c), out: st.out };
        assert(xml_step(b, n, st) == XmlStep::Next(s2));
        let rest = s.drop_first();
        assert forall|k: int| 0 <= k < rest.len() implies b[s2.i + k] == #[trigger] rest[k] as u8 by {
            assert(rest[k] == s[k + 1]);
            assert(b[st.i + (k + 1)] == s[k + 1] as u8);
        }
        assert forall|k: int| 0 <= k < rest.len() implies ascii(#[trigger] rest[k]) by {
            assert(rest[k] == s[k + 1]);
        }
        assert forall|k: int| 0 <= k < rest.len() implies #[trigger] rest[k] != '<' by {
            assert(rest[k] == s[k + 1]);
        }
        lemma_run_text(b, n, s2, rest);
        assert(st.buf.push(c) + rest =~= st.buf + s);
    }
}

proof fn lemma_ascii_bytes_decode(b: Seq<u8>, i: int, s: Seq<char>)
    requires
        bytes_at(b, i, s),
        all_ascii(s),
    ensures
        b.subrange(i, i + s.len()) == vstd::utf8::encode_utf8(s),
        tag_text(b.subrange(i, i + s.len())) == s,
{
    assert(vstd::utf8::is_ascii_chars(s)) by {
        assert forall|k: int| 0 <= k < s.len() implies '\0' <= #[trigger] s[k] <= '\u{7f}' by {
            assert(ascii(s[k]));
        }
    }
    vstd::utf8::is_ascii_chars_encode_utf8(s);
    let e = vstd::utf8::encode_utf8(s);
    assert(b.subrange(i, i + s.len()) =~= e) by {
        assert forall|k: int| 0 <= k < s.len() implies b.subrange(i, i + s.len())[k] == e[k] by {
            assert(b[i + k] == s[k] as u8);
        }
    }
    vstd::utf8::encode_utf8_valid_utf8(s);
    vstd::utf8::encode_utf8_decode_utf8(s);
}

/// A tag `<t>` (not a comment, declaration or processing instruction)
/// flushes the pending text and updates the open-element stack.
#[verifier::spinoff_prover]
pub proof fn lemma_run_tag(b: Seq<u8>, n: Seq<char>, st: XmlScan, t: Seq<char>)
    requires
        bytes_at(b, st.i, seq!['<'] + t + seq!['>']),
        all_ascii(t),
        lacks(t, '>'),
        t.len() > 0,
        t[0] != '!',
        t[0] != '?',
    ensures
        xml_run(b, n, st) == xml_run(
            b,
            n,
            XmlScan {
                i: st.i + t.len() + 2,
                stack: apply_tag(st.stack, t),
                buf: Seq::empty(),
                out: flushed(st, n),
            },
        ),
{
    let w = seq!['<'] + t + seq!['>'];
    let i = st.i;
    let start = i + 1;
    let end = i + 1 + t.len();
    assert(b[i + 0] == w[0] as u8);
    assert(w[0] == '<');
    lemma_ascii_char('<');
    assert(b[i] == 60u8);
    assert(b[i + 1] == w[1] as u8);
    assert(w[1] == t[0]);
    lemma_ascii_char(t[0]);
    assert(b[start] != 33u8 && b[start] != 63u8) by {
        assert((t[0] as u8) as u32 == t[0] as u32);
        assert(t[0] != '!' && t[0] != '?');
    }
    assert(b[i + (t.len() + 1)] == w[t.len() as int + 1] as u8);
    assert(w[t.len() as int + 1] == '>');
    lemma_ascii_char('>');
    assert(occurs_at(b, gt(), end)) by {
        assert(b.subrange(end, end + 1) =~= gt());
    }
    assert(none_before(b, gt(), start, end)) by {
        assert forall|k: int| start <= k < end implies !occurs_at(b, gt(), k) by {
            let j = k - i;
            assert(b[i + j] == w[j] as u8);
            assert(w[j] == t[j - 1]);
            lemma_ascii_char(t[j - 1]);
            assert(t[j - 1] != '>');
            assert(b.subrange(k, k + 1)[0] == b[k]);
        }
    }
    lemma_find_from(b, gt(), start, Some(end));
    let tb = Seq::new(t.len(), |k: int| b[start + k]);
    assert(bytes_at(b, start, t)) by {
        assert forall|k: int| 0 <= k < t.len() implies b[start + k] == #[trigger] t[k] as u8 by {
            assert(b[i + (k + 1)] == w[k + 1] as u8);
            assert(w[k + 1] == t[k]);
        }
    }
    lemma_ascii_bytes_decode(b, start, t);
}

/// A declaration `<?d?>` is skipped after flushing the pending text.
#[verifier::spinoff_prover]
pub proof fn lemma_run_decl(b: Seq<u8>, n: Seq<char>, st: XmlScan, d: Seq<char>)
    requires
        bytes_at(b, st.i, seq!['<', '?'] + d + seq!['?', '>']),
        all_ascii(d),
        lacks(d, '>'),
        lacks(d, '?'),
    ensures
        xml_run(b, n, st) == xml_run(
            b,
            n,
            XmlScan { i: st.i + d.len() + 4, stack: st.stack, buf: Seq::empty(), out: flushed(st, n) },
        ),
{
    let w = seq!['<', '?'] + d + seq!['?', '>'];
    let i = st.i;
    let end = i + 2 + d.len();
    lemma_ascii_char('<');
    lemma_ascii_char('?');
    lemma_ascii_char('>');
    assert(b[i + 0] == w[0] as u8);
    assert(b[i + 1] == w[1] as u8);
    assert(b[i] == 60u8);
    assert(b[i + 1] == 63u8);
    assert(b[i + (d.len() + 2)] == w[d.len() as int + 2] as u8);
    assert(b[i + (d.len() + 3)] == w[d.len() as int + 3] as u8);
    assert(occurs_at(b, pi_close(), end)) by {
        assert(b.subrange(end, end + 2) =~= pi_close());
    }
    assert(none_before(b, pi_close(), i, end)) by {
        assert forall|k: int| i <= k < end implies !occurs_at(b, pi_close(), k) by {
            let j = k - i;
            assert(b[i + j] == w[j] as u8);
            assert(b[i + (j + 1)] == w[j + 1] as u8);
            if j == 0 {
                assert(b.subrange(k, k + 2)[0] == b[k]);
            } else if j == 1 {
                if d.len() > 0 {
                    assert(w[2] == d[0]);
                    lemma_ascii_char(d[0]);
                } else {
                    assert(w[2] == '?');
                }
                assert(b.subrange(k, k + 2)[1] == b[k + 1]);
            } else {
                assert(w[j] == d[j - 2]);
                lemma_ascii_char(d[j - 2]);
                assert(b.subrange(k, k + 2)[0] == b[k]);
            }
        }
    }
    lemma_find_from(b, pi_close(), i, Some(end));
}

/// An ASCII letter or digit.
pub open spec fn alnum(c: char) -> bool {
    ('0' <= c <= '9') || ('a' <= c <= 'z') || ('A' <= c <= 'Z')
}

/// A character of a name: a letter, a digit or `-`.
pub open spec fn name_char(c: char) -> bool {
    alnum(c) || c == '-'
}

/// A run of letters, digits and `-` that starts and ends with a letter or
/// digit.
pub open spec fn is_name(s: Seq<char>) -> bool {
    &&& s.len() > 0
    &&& alnum(s[0])
    &&& alnum(s.last())
    &&& forall|i: int| 0 <= i < s.len() ==> name_char(#[trigger] s[i])
}

/// An element name, with its prefix when there is one.
pub open spec fn qname(p: Seq<char>, l: Seq<char>) -> Seq<char> {
    if p.len() == 0 {
        l
    } else {
        p + seq![':'] + l
    }
}

/// Attributes after an element name: nothing, or text that starts with a
/// space, has no `>` and does not end in `/`.
pub open spec fn attrs_ok(a: Seq<char>) -> bool {
    a.len() == 0 || (a[0] == ' ' && a.last() != '/' && lacks(a, '>') && all_ascii(a))
}

/// A prefix (possibly none) and a local name that are plain names.
pub open spec fn names_ok(p: Seq<char>, l: Seq<char>) -> bool {
    (p.len() == 0 || is_name(p)) && is_name(l)
}

proof fn lemma_qname(p: Seq<char>, l: Seq<char>)
    requires
        names_ok(p, l),
    ensures
        qname(p, l).len() > 0,
        alnum(qname(p, l)[0]),
        alnum(qname(p, l).last()),
        forall|k: int| 0 <= k < qname(p, l).len() ==> !is_white(#[trigger] qname(p, l)[k]),
        all_ascii(qname(p, l)),
        lacks(qname(p, l), '>'),
        lacks(qname(p, l), '/'),
        after_last_colon(qname(p, l)) == l,
{
    let q = qname(p, l);
    assert forall|k: int| 0 <= k < q.len() implies !is_white(#[trigger] q[k]) && ascii(q[k]) && q[k]
        != '>' && q[k] != '/' by {
        if p.len() == 0 {
            assert(name_char(l[k]));
        } else if k < p.len() {
            assert(q[k] == p[k]);
            assert(name_char(p[k]));
        } else if k == p.len() {
            assert(q[k] == ':');
        } else {
            assert(q[k] == l[k - p.len() - 1]);
            assert(name_char(l[k - p.len() - 1]));
        }
    }
    assert(alnum(l[l.len() - 1]));
    if p.len() == 0 {
        assert forall|j: int| -1 < j < l.len() implies l[j] != ':' by {
            assert(name_char(l[j]));
        }
        lemma_after_last_colon(l, -1);
        assert(l.subrange(0, l.len() as int) =~= l);
        assert(alnum(l[0]));
    } else {
        assert(q[p.len() as int] == ':');
        assert forall|j: int| p.len() < j < q.len() implies q[j] != ':' by {
            assert(q[j] == l[j - p.len() - 1]);
            assert(name_char(l[j - p.len() - 1]));
        }
        lemma_after_last_colon(q, p.len() as int);
        assert(q.subrange(p.len() as int + 1, q.len() as int) =~= l);
        assert(q[0] == p[0]);
        assert(alnum(p[0]));
        assert(q.last() == l.last());
    }
}

/// The text of an opening tag.
pub open spec fn open_text(p: Seq<char>, l: Seq<char>, attrs: Seq<char>) -> Seq<char> {
    qname(p, l) + attrs
}

/// The text of a closing tag.
pub open spec fn close_text(p: Seq<char>, l: Seq<char>) -> Seq<char> {
    seq!['/'] + qname(p, l)
}

/// An opening tag pushes its local name.
pub proof fn lemma_open_tag(stack: Seq<Seq<char>>, p: Seq<char>, l: Seq<char>, attrs: Seq<char>)
    requires
        names_ok(p, l),
        attrs_ok(attrs),
    ensures
        apply_tag(stack, open_text(p, l, attrs)) == stack.push(l),
        open_text(p, l, attrs).len() > 0,
        open_text(p, l, attrs)[0] != '!',
        open_text(p, l, attrs)[0] != '?',
        lacks(open_text(p, l, attrs), '>'),
        all_ascii(open_text(p, l, attrs)),
{
    lemma_qname(p, l);
    let q = qname(p, l);
    let t = open_text(p, l, attrs);
    assert(t[0] == q[0]);
    assert(t.last() != '/') by {
        if attrs.len() == 0 {
            assert(t.last() == q.last());
        } else {
            assert(t.last() == attrs.last());
        }
    }
    assert(trim_end_slashes(t) == t);
    lemma_trim_start_at(t, 0);
    assert(t.subrange(0, t.len() as int) =~= t);
    assert forall|k: int| 0 <= k < q.len() implies !is_white(#[trigger] t[k]) by {
        assert(t[k] == q[k]);
    }
    if q.len() < t.len() {
        assert(t[q.len() as int] == attrs[0]);
    }
    lemma_token_prefix_at(t, q.len() as int);
    assert(t.subrange(0, q.len() as int) =~= q);
    assert forall|k: int| 0 <= k < t.len() implies #[trigger] t[k] != '>' && ascii(t[k]) by {
        if k < q.len() {
            assert(t[k] == q[k]);
        } else {
            assert(t[k] == attrs[k - q.len()]);
        }
    }
}

/// A closing tag pops the innermost element when it names it.
pub proof fn lemma_close_tag(stack: Seq<Seq<char>>, p: Seq<char>, l: Seq<char>)
    requires
        names_ok(p, l),
    ensures
        apply_tag(stack, close_text(p, l)) == (if stack.len() > 0 && stack.last() == l {
            stack.drop_last()
        } else {
            stack
        }),
        close_text(p, l).len() > 0,
        close_text(p, l)[0] != '!',
        close_text(p, l)[0] != '?',
        lacks(close_text(p, l), '>'),
        all_ascii(close_text(p, l)),
{
    lemma_qname(p, l);
    let q = qname(p, l);
    let t = close_text(p, l);
    assert(t.drop_first() =~= q);
    lemma_trim_start_at(q, 0);
    assert(q.subrange(0, q.len() as int) =~= q);
    lemma_token_prefix_at(q, q.len() as int);
    assert forall|k: int| 0 <= k < t.len() implies #[trigger] t[k] != '>' && ascii(t[k]) by {
        if k > 0 {
            assert(t[k] == q[k - 1]);
        }
    }
}

/// `b` holds `s1 + s2` from `i`: it holds `s1` there and `s2` right after.
pub proof fn lemma_bytes_at_split(b: Seq<u8>, i: int, s1: Seq<char>, s2: Seq<char>)
    requires
        bytes_at(b, i, s1 + s2),
    ensures
        bytes_at(b, i, s1),
        bytes_at(b, i + s1.len(), s2),
{
    let s = s1 + s2;
    assert forall|k: int| 0 <= k < s1.len() implies b[i + k] == #[trigger] s1[k] as u8 by {
        assert(s[k] == s1[k]);
    }
    assert forall|k: int| 0 <= k < s2.len() implies b[(i + s1.len()) + k] == #[trigger] s2[k] as u8 by {
        assert(s[s1.len() + k] == s2[k]);
        assert(b[i + (s1.len() + k)] == s[s1.len() + k] as u8);
    }
}

/// White space (ASCII) only.
pub open spec fn blank(s: Seq<char>) -> bool {
    forall|i: int| 0 <= i < s.len() ==> is_white(#[trigger] s[i]) && ascii(s[i])
}

pub proof fn lemma_blank_trim(s: Seq<char>)
    requires
        blank(s),
    ensures
        trim(s).len() == 0,
{
    lemma_trim_start_at(s, s.len() as int);
    assert(s.subrange(s.len() as int, s.len() as int) =~= Seq::<char>::empty());
}

/// An element that holds only text: white space before it, its name and
/// attributes, and the text.
pub struct TextElem {
    pub ws: Seq<char>,
    pub prefix: Seq<char>,
    pub local: Seq<char>,
    pub attrs: Seq<char>,
    pub text: Seq<char>,
}

pub open spec fn elem_ok(e: TextElem) -> bool {
    &&& blank(e.ws)
    &&& names_ok(e.prefix, e.local)
    &&& attrs_ok(e.attrs)
    &&& all_ascii(e.text)
    &&& lacks(e.text, '<')
}

/// How an element is written.
pub open spec fn elem_chars(e: TextElem) -> Seq<char> {
    e.ws + seq!['<'] + open_text(e.prefix, e.local, e.attrs) + seq!['>'] + e.text + seq!['<']
        + close_text(e.prefix, e.local) + seq!['>']
}

pub open spec fn elems_chars(es: Seq<TextElem>) -> Seq<char>
    decreases es.len(),
{
    if es.len() == 0 {
        Seq::empty()
    } else {
        elem_chars(es[0]) + elems_chars(es.drop_first())
    }
}

/// What the scanner reports of one element when asked for `n`.
pub open spec fn pick(e: TextElem, n: Seq<char>) -> Seq<Seq<char>> {
    if e.local == n && trim(e.text).len() > 0 {
        seq![trim(e.text)]
    } else {
        Seq::empty()
    }
}

/// The trimmed, non-blank texts of the elements named `n`, in order.
pub open spec fn picks(es: Seq<TextElem>, n: Seq<char>) -> Seq<Seq<char>>
    decreases es.len(),
{
    if es.len() == 0 {
        Seq::empty()
    } else {
        pick(es[0], n) + picks(es.drop_first(), n)
    }
}

pub open spec fn elems_ok(es: Seq<TextElem>) -> bool {
    forall|k: int| 0 <= k < es.len() ==> elem_ok(#[trigger] es[k])
}

/// One text element, read from blank pending text, reports its text and
/// leaves the stack as it was.
#[verifier::spinoff_prover]
pub proof fn lemma_run_elem(b: Seq<u8>, n: Seq<char>, st: XmlScan, e: TextElem)
    requires
        bytes_at(b, st.i, elem_chars(e)),
        elem_ok(e),
        blank(st.buf),
    ensures
        xml_run(b, n, st) == xml_run(
            b,
            n,
            XmlScan {
                i: st.i + elem_chars(e).len(),
                stack: st.stack,
                buf: Seq::empty(),
                out: st.out + pick(e, n),
            },
        ),
{
    let ot = open_text(e.prefix, e.local, e.attrs);
    let ct = close_text(e.prefix, e.local);
    let a = e.ws;
    let o = seq!['<'] + ot + seq!['>'];
    let c = seq!['<'] + ct + seq!['>'];
    assert(elem_chars(e) =~= a + (o + (e.text + c)));
    lemma_bytes_at_split(b, st.i, a, o + (e.text + c));
    let i1 = st.i + a.len();
    lemma_bytes_at_split(b, i1, o, e.text + c);
    let i2 = i1 + o.len();
    lemma_bytes_at_split(b, i2, e.text, c);
    let i3 = i2 + e.text.len();
    assert(all_ascii(a) && lacks(a, '<')) by {
        assert forall|k: int| 0 <= k < a.len() implies ascii(#[trigger] a[k]) && a[k] != '<' by {
            assert(is_white(a[k]) && ascii(a[k]));
        }
    }
    lemma_run_text(b, n, st, a);
    let s1 = XmlScan { i: i1, stack: st.stack, buf: st.buf + a, out: st.out };
    assert(blank(st.buf + a)) by {
        assert forall|k: int| 0 <= k < (st.buf + a).len() implies is_white(#[trigger] (st.buf + a)[k])
            && ascii((st.buf + a)[k]) by {
            if k < st.buf.len() {
                assert((st.buf + a)[k] == st.buf[k]);
            } else {
                assert((st.buf + a)[k] == a[k - st.buf.len()]);
            }
        }
    }
    lemma_blank_trim(st.buf + a);
    assert(flushed(s1, n) == st.out);
    lemma_open_tag(st.stack, e.prefix, e.local, e.attrs);
    lemma_run_tag(b, n, s1, ot);
    assert(o.len() == ot.len() + 2);
    let s2 = XmlScan { i: i2, stack: st.stack.push(e.local), buf: Seq::empty(), out: st.out };
    lemma_run_text(b, n, s2, e.text);
    let s3 = XmlScan { i: i3, stack: st.stack.push(e.local), buf: Seq::empty() + e.text, out: st.out };
    assert(Seq::<char>::empty() + e.text =~= e.text);
    lemma_close_tag(st.stack.push(e.local), e.prefix, e.local);
    lemma_run_tag(b, n, s3, ct);
    assert(flushed(s3, n) == st.out + pick(e, n)) by {
        if e.local == n && trim(e.text).len() > 0 {
            assert(st.out.push(trim(e.text)) =~= st.out + seq![trim(e.text)]);
        } else {
            assert(st.out + Seq::<Seq<char>>::empty() =~= st.out);
        }
    }
    assert(st.stack.push(e.local).drop_last() =~= st.stack);
    assert(i3 + ct.len() + 2 == st.i + elem_chars(e).len());
}

/// A run of text elements reports their picks and leaves the stack as it
/// was.
#[verifier::spinoff_prover]
pub proof fn lemma_run_elems(b: Seq<u8>, n: Seq<char>, st: XmlScan, es: Seq<TextElem>)
    requires
        bytes_at(b, st.i, elems_chars(es)),
        elems_ok(es),
        blank(st.buf),
    ensures
        xml_run(b, n, st) == xml_run(
            b,
            n,
            XmlScan {
                i: st.i + elems_chars(es).len(),
                stack: st.stack,
                buf: if es.len() == 0 {
                    st.buf
                } else {
                    Seq::empty()
                },
                out: st.out + picks(es, n),
            },
        ),
    decreases es.len(),
{
    if es.len() == 0 {
        assert(st.out + Seq::<Seq<char>>::empty() =~= st.out);
        assert(st == XmlScan { i: st.i + 0, stack: st.stack, buf: st.buf, out: st.out + picks(es, n) });
    } else {
        let e = es[0];
        let rest = es.drop_first();
        assert(elem_ok(e));
        lemma_bytes_at_split(b, st.i, elem_chars(e), elems_chars(rest));
        lemma_run_elem(b, n, st, e);
        let s1 = XmlScan {
            i: st.i + elem_chars(e).len(),
            stack: st.stack,
            buf: Seq::empty(),
            out: st.out + pick(e, n),
        };
        assert(elems_ok(rest)) by {
            assert forall|k: int| 0 <= k < rest.len() implies elem_ok(#[trigger] rest[k]) by {
                assert(rest[k] == es[k + 1]);
            }
        }
        assert(blank(Seq::<char>::empty()));
        lemma_run_elems(b, n, s1, rest);
        assert(st.out + pick(e, n) + picks(rest, n) =~= st.out + picks(es, n));
    }
}

pub proof fn lemma_ascii_concat(s1: Seq<char>, s2: Seq<char>)
    requires
        all_ascii(s1),
        all_ascii(s2),
    ensures
        all_ascii(s1 + s2),
{
    assert forall|k: int| 0 <= k < (s1 + s2).len() implies ascii(#[trigger] (s1 + s2)[k]) by {
        if k < s1.len() {
            assert((s1 + s2)[k] == s1[k]);
        } else {
            assert((s1 + s2)[k] == s2[k - s1.len()]);
        }
    }
}

proof fn lemma_blank_ascii(s: Seq<char>)
    requires
        blank(s),
    ensures
        all_ascii(s),
        lacks(s, '<'),
{
    assert forall|k: int| 0 <= k < s.len() implies ascii(#[trigger] s[k]) && s[k] != '<' by {
        assert(is_white(s[k]) && ascii(s[k]));
    }
}

proof fn lemma_punct_ascii(s: Seq<char>)
    requires
        forall|k: int| 0 <= k < s.len() ==> (#[trigger] s[k] == '<' || s[k] == '>' || s[k] == '?'
            || s[k] == '/'),
    ensures
        all_ascii(s),
{
    assert forall|k: int| 0 <= k < s.len() implies ascii(#[trigger] s[k]) by {
        assert(s[k] == '<' || s[k] == '>' || s[k] == '?' || s[k] == '/');
    }
}

/// The text of `<o>` for an opening tag `o`, and of `<c>` for a closing one.
pub open spec fn wrapped(t: Seq<char>) -> Seq<char> {
    seq!['<'] + t + seq!['>']
}

proof fn lemma_wrapped_ascii(t: Seq<char>)
    requires
        all_ascii(t),
    ensures
        all_ascii(wrapped(t)),
{
    lemma_punct_ascii(seq!['<']);
    lemma_punct_ascii(seq!['>']);
    lemma_ascii_concat(seq!['<'], t);
    lemma_ascii_concat(seq!['<'] + t, seq!['>']);
}

pub proof fn lemma_elems_ascii(es: Seq<TextElem>)
    requires
        elems_ok(es),
    ensures
        all_ascii(elems_chars(es)),
    decreases es.len(),
{
    if es.len() > 0 {
        let e = es[0];
        assert(elem_ok(e));
        lemma_open_tag(Seq::empty(), e.prefix, e.local, e.attrs);
        lemma_close_tag(Seq::empty(), e.prefix, e.local);
        lemma_blank_ascii(e.ws);
        lemma_wrapped_ascii(open_text(e.prefix, e.local, e.attrs));
        lemma_wrapped_ascii(close_text(e.prefix, e.local));
        let o = wrapped(open_text(e.prefix, e.local, e.attrs));
        let c = wrapped(close_text(e.prefix, e.local));
        lemma_ascii_concat(e.text, c);
        lemma_ascii_concat(o, e.text + c);
        lemma_ascii_concat(e.ws, o + (e.text + c));
        assert(elem_chars(e) =~= e.ws + (o + (e.text + c)));
        let rest = es.drop_first();
        assert(elems_ok(rest)) by {
            assert forall|k: int| 0 <= k < rest.len() implies elem_ok(#[trigger] rest[k]) by {
                assert(rest[k] == es[k + 1]);
            }
        }
        lemma_elems_ascii(rest);
        lemma_ascii_concat(elem_chars(e), elems_chars(rest));
    }
}

/// An element holding text elements.
pub struct ElemGroup {
    pub ws: Seq<char>,
    pub prefix: Seq<char>,
    pub local: Seq<char>,
    pub attrs: Seq<char>,
    pub elems: Seq<TextElem>,
    pub ws_close: Seq<char>,
}

pub open spec fn group_ok(g: ElemGroup) -> bool {
    &&& blank(g.ws)
    &&& names_ok(g.prefix, g.local)
    &&& attrs_ok(g.attrs)
    &&& elems_ok(g.elems)
    &&& blank(g.ws_close)
}

pub open spec fn group_chars(g: ElemGroup) -> Seq<char> {
    g.ws + wrapped(open_text(g.prefix, g.local, g.attrs)) + elems_chars(g.elems) + g.ws_close
        + wrapped(close_text(g.prefix, g.local))
}

/// A document: a declaration, then a root element holding text elements
/// and optionally one group of them.
pub struct SimpleDoc {
    pub decl: Seq<char>,
    pub ws0: Seq<char>,
    pub root: TextElem,
    pub elems: Seq<TextElem>,
    pub inner: Option<ElemGroup>,
    pub ws_close: Seq<char>,
    pub ws_end: Seq<char>,
}

pub open spec fn inner_chars(g: Option<ElemGroup>) -> Seq<char> {
    match g {
        Some(g) => group_chars(g),
        None => Seq::empty(),
    }
}

/// The document's text. The root's `ws` and `text` are not used.
pub open spec fn doc_chars(d: SimpleDoc) -> Seq<char> {
    let ot = open_text(d.root.prefix, d.root.local, d.root.attrs);
    let ct = close_text(d.root.prefix, d.root.local);
    (seq!['<', '?'] + d.decl + seq!['?', '>']) + ((d.ws0 + wrapped(ot)) + (elems_chars(d.elems) + (
    inner_chars(d.inner) + ((d.ws_close + wrapped(ct)) + d.ws_end))))
}

pub open spec fn doc_ok(d: SimpleDoc) -> bool {
    &&& all_ascii(d.decl)
    &&& lacks(d.decl, '>')
    &&& lacks(d.decl, '?')
    &&& blank(d.ws0)
    &&& names_ok(d.root.prefix, d.root.local)
    &&& attrs_ok(d.root.attrs)
    &&& elems_ok(d.elems)
    &&& (d.inner matches Some(g) ==> group_ok(g))
    &&& blank(d.ws_close)
    &&& blank(d.ws_end)
}

/// What the scanner reports for `n` in a document: the root's text elements
/// named `n`, then the group's.
pub open spec fn doc_picks(d: SimpleDoc, n: Seq<char>) -> Seq<Seq<char>> {
    picks(d.elems, n) + match d.inner {
        Some(g) => picks(g.elems, n),
        None => Seq::empty(),
    }
}

proof fn lemma_blank_concat(s1: Seq<char>, s2: Seq<char>)
    requires
        blank(s1),
        blank(s2),
    ensures
        blank(s1 + s2),
{
    assert forall|k: int| 0 <= k < (s1 + s2).len() implies is_white(#[trigger] (s1 + s2)[k]) && ascii(
        (s1 + s2)[k],
    ) by {
        if k < s1.len() {
            assert((s1 + s2)[k] == s1[k]);
        } else {
            assert((s1 + s2)[k] == s2[k - s1.len()]);
        }
    }
}

/// Blank text, then a tag: the tag's effect on the stack, nothing reported.
proof fn lemma_run_ws_tag(b: Seq<u8>, n: Seq<char>, st: XmlScan, ws: Seq<char>, t: Seq<char>)
    requires
        bytes_at(b, st.i, ws + wrapped(t)),
        blank(st.buf),
        blank(ws),
        all_ascii(t),
        lacks(t, '>'),
        t.len() > 0,
        t[0] != '!',
        t[0] != '?',
    ensures
        xml_run(b, n, st) == xml_run(
            b,
            n,
            XmlScan {
                i: st.i + ws.len() + t.len() + 2,
                stack: apply_tag(st.stack, t),
                buf: Seq::empty(),
                out: st.out,
            },
        ),
{
    lemma_bytes_at_split(b, st.i, ws, wrapped(t));
    lemma_blank_ascii(ws);
    lemma_run_text(b, n, st, ws);
    let s1 = XmlScan { i: st.i + ws.len(), stack: st.stack, buf: st.buf + ws, out: st.out };
    lemma_blank_concat(st.buf, ws);
    lemma_blank_trim(st.buf + ws);
    lemma_run_tag(b, n, s1, t);
}

/// A group reports its elements' picks and leaves the stack as it was.
#[verifier::spinoff_prover]
#[verifier::rlimit(50)]
pub proof fn lemma_run_group(b: Seq<u8>, n: Seq<char>, st: XmlScan, g: ElemGroup)
    requires
        bytes_at(b, st.i, group_chars(g)),
        group_ok(g),
        blank(st.buf),
    ensures
        xml_run(b, n, st) == xml_run(
            b,
            n,
            XmlScan {
                i: st.i + group_chars(g).len(),
                stack: st.stack,
                buf: Seq::empty(),
                out: st.out + picks(g.elems, n),
            },
        ),
{
    let ot = open_text(g.prefix, g.local, g.attrs);
    let ct = close_text(g.prefix, g.local);
    let e = elems_chars(g.elems);
    assert(group_chars(g) =~= (g.ws + wrapped(ot)) + (e + (g.ws_close + wrapped(ct))));
    lemma_bytes_at_split(b, st.i, g.ws + wrapped(ot), e + (g.ws_close + wrapped(ct)));
    lemma_open_tag(st.stack, g.prefix, g.local, g.attrs);
    lemma_run_ws_tag(b, n, st, g.ws, ot);
    let i1 = st.i + g.ws.len() + ot.len() + 2;
    let s1 = XmlScan { i: i1, stack: st.stack.push(g.local), buf: Seq::empty(), out: st.out };
    lemma_bytes_at_split(b, i1, e, g.ws_close + wrapped(ct));
    assert(blank(Seq::<char>::empty()));
    lemma_run_elems(b, n, s1, g.elems);
    let i2 = i1 + e.len();
    let s2 = XmlScan {
        i: i2,
        stack: st.stack.push(g.local),
        buf: Seq::empty(),
        out: st.out + picks(g.elems, n),
    };
    assert(xml_run(b, n, s1) == xml_run(b, n, s2)) by {
        if g.elems.len() == 0 {
            assert(picks(g.elems, n) =~= Seq::<Seq<char>>::empty());
            assert(st.out + picks(g.elems, n) =~= st.out);
        }
    }
    lemma_close_tag(st.stack.push(g.local), g.prefix, g.local);
    lemma_run_ws_tag(b, n, s2, g.ws_close, ct);
    assert(st.stack.push(g.local).drop_last() =~= st.stack);
}

#[verifier::spinoff_prover]
proof fn lemma_doc_ascii(d: SimpleDoc)
    requires
        doc_ok(d),
    ensures
        all_ascii(doc_chars(d)),
{
    let pre = seq!['<', '?'] + d.decl + seq!['?', '>'];
    let ot = open_text(d.root.prefix, d.root.local, d.root.attrs);
    let ct = close_text(d.root.prefix, d.root.local);
    let e = elems_chars(d.elems);
    let inn = inner_chars(d.inner);
    lemma_open_tag(Seq::empty(), d.root.prefix, d.root.local, d.root.attrs);
    lemma_close_tag(Seq::empty(), d.root.prefix, d.root.local);
    lemma_punct_ascii(seq!['<', '?']);
    lemma_punct_ascii(seq!['?', '>']);
    lemma_ascii_concat(seq!['<', '?'], d.decl);
    lemma_ascii_concat(seq!['<', '?'] + d.decl, seq!['?', '>']);
    lemma_blank_ascii(d.ws0);
    lemma_wrapped_ascii(ot);
    lemma_wrapped_ascii(ct);
    lemma_elems_ascii(d.elems);
    match d.inner {
        Some(g) => {
            lemma_open_tag(Seq::empty(), g.prefix, g.local, g.attrs);
            lemma_close_tag(Seq::empty(), g.prefix, g.local);
            lemma_blank_ascii(g.ws);
            lemma_blank_ascii(g.ws_close);
            lemma_wrapped_ascii(open_text(g.prefix, g.local, g.attrs));
            lemma_wrapped_ascii(close_text(g.prefix, g.local));
            lemma_elems_ascii(g.elems);
            let gs = g.ws + wrapped(open_text(g.prefix, g.local, g.attrs));
            lemma_ascii_concat(g.ws, wrapped(open_text(g.prefix, g.local, g.attrs)));
            lemma_ascii_concat(gs, elems_chars(g.elems));
            lemma_ascii_concat(gs + elems_chars(g.elems), g.ws_close);
            lemma_ascii_concat(
                gs + elems_chars(g.elems) + g.ws_close,
                wrapped(close_text(g.prefix, g.local)),
            );
        },
        None => {},
    }
    lemma_blank_ascii(d.ws_close);
    lemma_blank_ascii(d.ws_end);
    lemma_ascii_concat(d.ws_close, wrapped(ct));
    lemma_ascii_concat(d.ws_close + wrapped(ct), d.ws_end);
    lemma_ascii_concat(inn, (d.ws_close + wrapped(ct)) + d.ws_end);
    lemma_ascii_concat(e, inn + ((d.ws_close + wrapped(ct)) + d.ws_end));
    lemma_ascii_concat(d.ws0, wrapped(ot));
    lemma_ascii_concat(d.ws0 + wrapped(ot), e + (inn + ((d.ws_close + wrapped(ct)) + d.ws_end)));
    lemma_ascii_concat(pre, (d.ws0 + wrapped(ot)) + (e + (inn + ((d.ws_close + wrapped(ct)) + d.ws_end))));
}

/// The end of a document: blank text, the root's closing tag, blank text.
#[verifier::spinoff_prover]
proof fn lemma_walk_tail(b: Seq<u8>, n: Seq<char>, st: XmlScan, root: TextElem, ws_close: Seq<char>, ws_end: Seq<char>)
    requires
        names_ok(root.prefix, root.local),
        blank(ws_close),
        blank(ws_end),
        st.stack == Seq::<Seq<char>>::empty().push(root.local),
        st.buf == Seq::<char>::empty(),
        bytes_at(b, st.i, (ws_close + wrapped(close_text(root.prefix, root.local))) + ws_end),
        st.i + ((ws_close + wrapped(close_text(root.prefix, root.local))) + ws_end).len() == b.len(),
    ensures
        xml_run(b, n, st) == st.out,
{
    let ct = close_text(root.prefix, root.local);
    lemma_close_tag(st.stack, root.prefix, root.local);
    lemma_bytes_at_split(b, st.i, ws_close + wrapped(ct), ws_end);
    assert(blank(Seq::<char>::empty()));
    lemma_run_ws_tag(b, n, st, ws_close, ct);
    let i5 = st.i + ws_close.len() + ct.len() + 2;
    assert(st.stack.drop_last() =~= Seq::<Seq<char>>::empty());
    let s5 = XmlScan { i: i5, stack: Seq::empty(), buf: Seq::empty(), out: st.out };
    lemma_blank_ascii(ws_end);
    lemma_run_text(b, n, s5, ws_end);
    let s6 = XmlScan { i: i5 + ws_end.len(), stack: Seq::empty(), buf: Seq::empty() + ws_end, out: st.out };
    assert(s6.i == b.len());
}

/// What the scanner reports for any name in a simple document: the picks
/// of its text elements, in document order.
#[verifier::spinoff_prover]
#[verifier::rlimit(60)]
pub proof fn lemma_doc_texts(d: SimpleDoc, n: Seq<char>)
    requires
        doc_ok(d),
    ensures
        crate::xmlutil::texts_in(doc_chars(d), n) == doc_picks(d, n),
{
    let x = doc_chars(d);
    let pre = seq!['<', '?'] + d.decl + seq!['?', '>'];
    let ot = open_text(d.root.prefix, d.root.local, d.root.attrs);
    let ct = close_text(d.root.prefix, d.root.local);
    let e = elems_chars(d.elems);
    let inn = inner_chars(d.inner);
    lemma_open_tag(Seq::empty(), d.root.prefix, d.root.local, d.root.attrs);
    lemma_close_tag(Seq::empty(), d.root.prefix, d.root.local);
    lemma_doc_ascii(d);
    let b = vstd::utf8::encode_utf8(x);
    assert(vstd::utf8::is_ascii_chars(x)) by {
        assert forall|k: int| 0 <= k < x.len() implies '\0' <= #[trigger] x[k] <= '\u{7f}' by {
            assert(ascii(x[k]));
        }
    }
    vstd::utf8::is_ascii_chars_encode_utf8(x);
    assert(bytes_at(b, 0, x));
    // Walk the pieces in order.
    let st0 = XmlScan { i: 0, stack: Seq::empty(), buf: Seq::empty(), out: Seq::empty() };
    lemma_bytes_at_split(b, 0, pre, (d.ws0 + wrapped(ot)) + (e + (inn + ((d.ws_close + wrapped(ct)) + d.ws_end))));
    lemma_run_decl(b, n, st0, d.decl);
    lemma_blank_trim(Seq::<char>::empty());
    let i1 = pre.len() as int;
    let s1 = XmlScan { i: i1, stack: Seq::empty(), buf: Seq::empty(), out: Seq::empty() };
    assert(flushed(st0, n) =~= Seq::<Seq<char>>::empty());
    lemma_bytes_at_split(b, i1, d.ws0 + wrapped(ot), e + (inn + ((d.ws_close + wrapped(ct)) + d.ws_end)));
    assert(blank(Seq::<char>::empty()));
    lemma_run_ws_tag(b, n, s1, d.ws0, ot);
    let i2 = i1 + d.ws0.len() + ot.len() + 2;
    let root = Seq::<Seq<char>>::empty().push(d.root.local);
    let s2 = XmlScan { i: i2, stack: root, buf: Seq::empty(), out: Seq::empty() };
    lemma_bytes_at_split(b, i2, e, inn + ((d.ws_close + wrapped(ct)) + d.ws_end));
    lemma_run_elems(b, n, s2, d.elems);
    let i3 = i2 + e.len();
    let s3 = XmlScan { i: i3, stack: root, buf: Seq::empty(), out: picks(d.elems, n) };
    assert(xml_run(b, n, s2) == xml_run(b, n, s3)) by {
        assert(Seq::<Seq<char>>::empty() + picks(d.elems, n) =~= picks(d.elems, n));
    }
    lemma_bytes_at_split(b, i3, inn, (d.ws_close + wrapped(ct)) + d.ws_end);
    let i4 = i3 + inn.len();
    let s4 = XmlScan { i: i4, stack: root, buf: Seq::empty(), out: doc_picks(d, n) };
    assert(xml_run(b, n, s3) == xml_run(b, n, s4)) by {
        match d.inner {
            Some(g) => {
                lemma_run_group(b, n, s3, g);
            },
            None => {
                assert(picks(d.elems, n) + Seq::<Seq<char>>::empty() =~= picks(d.elems, n));
                assert(s3 == s4);
            },
        }
    }
    lemma_walk_tail(b, n, s4, d.root, d.ws_close, d.ws_end);
}

/// `elems_chars` of a list grown at the end.
pub proof fn lemma_elems_chars_push(es: Seq<TextElem>, e: TextElem)
    ensures
        elems_chars(es.push(e)) == elems_chars(es) + elem_chars(e),
    decreases es.len(),
{
    if es.len() == 0 {
        assert(es.push(e).drop_first() =~= Seq::<TextElem>::empty());
        assert(es.push(e)[0] == e);
        assert(elems_chars(Seq::<TextElem>::empty()) == Seq::<char>::empty());
        assert(elems_chars(es) == Seq::<char>::empty());
        assert(elems_chars(es.push(e)) == elem_chars(e) + elems_chars(es.push(e).drop_first()));
        assert(elem_chars(e) + Seq::<char>::empty() =~= elem_chars(e));
        assert(Seq::<char>::empty() + elem_chars(e) =~= elem_chars(e));
    } else {
        assert(es.push(e).drop_first() =~= es.drop_first().push(e));
        lemma_elems_chars_push(es.drop_first(), e);
        assert(es.push(e)[0] == es[0]);
        assert(elem_chars(es[0]) + (elems_chars(es.drop_first()) + elem_chars(e)) =~= (elem_chars(
            es[0],
        ) + elems_chars(es.drop_first())) + elem_chars(e));
    }
}

/// A text element with a prefix and no attributes.
pub open spec fn text_elem(ws: Seq<char>, p: Seq<char>, l: Seq<char>, text: Seq<char>) -> TextElem {
    TextElem { ws, prefix: p, local: l, attrs: Seq::empty(), text }
}

/// Append `<p:l attrs>`.
pub fn push_open(s: &mut String, p: &str, l: &str, attrs: &str)
    requires
        p@.len() > 0,
    ensures
        final(s)@ == old(s)@ + wrapped(open_text(p@, l@, attrs@)),
{
    s.append("<");
    s.append(p);
    s.append(":");
    s.append(l);
    s.append(attrs);
    s.append(">");
    proof {
        reveal_strlit("<");
        reveal_strlit(":");
        reveal_strlit(">");
    }
    assert(final(s)@ =~= old(s)@ + wrapped(open_text(p@, l@, attrs@)));
}

/// Append `</p:l>`.
pub fn push_close(s: &mut String, p: &str, l: &str)
    requires
        p@.len() > 0,
    ensures
        final(s)@ == old(s)@ + wrapped(close_text(p@, l@)),
{
    s.append("</");
    s.append(p);
    s.append(":");
    s.append(l);
    s.append(">");
    proof {
        reveal_strlit("</");
        reveal_strlit(":");
        reveal_strlit(">");
    }
    assert(final(s)@ =~= old(s)@ + wrapped(close_text(p@, l@)));
}

/// Append white space `ws`, then `<p:l>text</p:l>`.
pub fn push_elem(s: &mut String, ws: &str, p: &str, l: &str, text: &str)
    requires
        p@.len() > 0,
    ensures
        final(s)@ == old(s)@ + elem_chars(text_elem(ws@, p@, l@, text@)),
{
    s.append(ws);
    push_open(s, p, l, "");
    s.append(text);
    push_close(s, p, l);
    proof {
        reveal_strlit("");
    }
    assert(final(s)@ =~= old(s)@ + elem_chars(text_elem(ws@, p@, l@, text@)));
}

/// Append `<?d?>`.
pub fn push_decl(s: &mut String, d: &str)
    ensures
        final(s)@ == old(s)@ + (seq!['<', '?'] + d@ + seq!['?', '>']),
{
    s.append("<?");
    s.append(d);
    s.append("?>");
    proof {
        reveal_strlit("<?");
        reveal_strlit("?>");
    }
    assert(final(s)@ =~= old(s)@ + (seq!['<', '?'] + d@ + seq!['?', '>']));
}

/// No element is picked: nothing is reported.
pub proof fn lemma_picks_none(es: Seq<TextElem>, n: Seq<char>)
    requires
        forall|j: int| 0 <= j < es.len() ==> #[trigger] pick(es[j], n).len() == 0,
    ensures
        picks(es, n).len() == 0,
    decreases es.len(),
{
    if es.len() > 0 {
        let rest = es.drop_first();
        assert forall|j: int| 0 <= j < rest.len() implies #[trigger] pick(rest[j], n).len() == 0 by {
            assert(rest[j] == es[j + 1]);
            assert(pick(es[j + 1], n).len() == 0);
        }
        lemma_picks_none(rest, n);
        assert(pick(es[0], n).len() == 0);
    }
}

/// The first element picked is reported first.
pub proof fn lemma_picks_first(es: Seq<TextElem>, n: Seq<char>, k: int)
    requires
        0 <= k < es.len(),
        forall|j: int| 0 <= j < k ==> #[trigger] pick(es[j], n).len() == 0,
        es[k].local == n,
        trim(es[k].text).len() > 0,
    ensures
        picks(es, n).len() > 0,
        picks(es, n)[0] == trim(es[k].text),
    decreases k,
{
    let rest = es.drop_first();
    if k == 0 {
        assert(pick(es[0], n) == seq![trim(es[0].text)]);
    } else {
        assert forall|j: int| 0 <= j < k - 1 implies #[trigger] pick(rest[j], n).len() == 0 by {
            assert(rest[j] == es[j + 1]);
            assert(pick(es[j + 1], n).len() == 0);
        }
        assert(rest[k - 1] == es[k]);
        lemma_picks_first(rest, n, k - 1);
        assert(pick(es[0], n).len() == 0);
        assert(picks(es, n) =~= picks(rest, n));
    }
}

/// Text with no white space at either end is its own trim.
pub proof fn lemma_trim_plain(s: Seq<char>)
    requires
        s.len() > 0,
        !is_white(s[0]),
        !is_white(s.last()),
    ensures
        trim(s) == s,
{
    lemma_trim_start_at(s, 0);
    assert(s.subrange(0, s.len() as int) =~= s);
}

/// `b` holds the UTF-8 encoding of `s` from index `i` on.
pub open spec fn enc_at(b: Seq<u8>, i: int, s: Seq<char>) -> bool {
    &&& 0 <= i
    &&& i + encode_utf8(s).len() <= b.len()
    &&& b.subrange(i, i + encode_utf8(s).len()) == encode_utf8(s)
}

/// The encoding of a concatenation is the concatenation of the encodings.
pub proof fn lemma_encode_concat(a: Seq<char>, c: Seq<char>)
    ensures
        encode_utf8(a + c) == encode_utf8(a) + encode_utf8(c),
    decreases a.len(),
{
    if a.len() == 0 {
        assert(a + c =~= c);
        assert(encode_utf8(a) =~= Seq::<u8>::empty());
        assert(Seq::<u8>::empty() + encode_utf8(c) =~= encode_utf8(c));
    } else {
        assert((a + c).drop_first() =~= a.drop_first() + c);
        assert((a + c)[0] == a[0]);
        lemma_encode_concat(a.drop_first(), c);
        let h = vstd::utf8::encode_scalar(a[0] as u32);
        assert(h + (encode_utf8(a.drop_first()) + encode_utf8(c)) =~= (h + encode_utf8(
            a.drop_first(),
        )) + encode_utf8(c));
    }
}

/// Holding `s1 + s2` is holding `s1`, then `s2` right after its encoding.
pub proof fn lemma_enc_at_split(b: Seq<u8>, i: int, s1: Seq<char>, s2: Seq<char>)
    requires
        enc_at(b, i, s1 + s2),
    ensures
        enc_at(b, i, s1),
        enc_at(b, i + encode_utf8(s1).len(), s2),
{
    lemma_encode_concat(s1, s2);
    let e1 = encode_utf8(s1);
    let e2 = encode_utf8(s2);
    let j = i + e1.len();
    assert(b.subrange(i, j) =~= b.subrange(i, i + (e1 + e2).len()).subrange(0, e1.len() as int));
    assert((e1 + e2).subrange(0, e1.len() as int) =~= e1);
    assert(b.subrange(j, j + e2.len()) =~= b.subrange(i, i + (e1 + e2).len()).subrange(
        e1.len() as int,
        (e1 + e2).len() as int,
    ));
    assert((e1 + e2).subrange(e1.len() as int, (e1 + e2).len() as int) =~= e2);
}

/// ASCII text is held byte for byte.
pub proof fn lemma_enc_at_ascii(b: Seq<u8>, i: int, s: Seq<char>)
    requires
        enc_at(b, i, s),
        all_ascii(s),
    ensures
        bytes_at(b, i, s),
        encode_utf8(s).len() == s.len(),
{
    assert(vstd::utf8::is_ascii_chars(s)) by {
        assert forall|k: int| 0 <= k < s.len() implies '\0' <= #[trigger] s[k] <= '\u{7f}' by {
            assert(ascii(s[k]));
        }
    }
    vstd::utf8::is_ascii_chars_encode_utf8(s);
    assert forall|k: int| 0 <= k < s.len() implies b[i + k] == #[trigger] s[k] as u8 by {
        assert(b.subrange(i, i + s.len())[k] == b[i + k]);
        assert(encode_utf8(s)[k] == s[k] as u8);
    }
}

/// Bytes read one character each.
pub open spec fn latin1(bs: Seq<u8>) -> Seq<char> {
    Seq::new(bs.len(), |j: int| bs[j] as char)
}

/// Bytes without `<` are read one character per byte into the pending text.
pub proof fn lemma_run_bytes(b: Seq<u8>, n: Seq<char>, st: XmlScan, k: int)
    requires
        0 <= st.i,
        0 <= k,
        st.i + k <= b.len(),
        forall|j: int| st.i <= j < st.i + k ==> #[trigger] b[j] != 60u8,
    ensures
        xml_run(b, n, st) == xml_run(
            b,
            n,
            XmlScan {
                i: st.i + k,
                stack: st.stack,
                buf: st.buf + latin1(b.subrange(st.i, st.i + k)),
                out: st.out,
            },
        ),
    decreases k,
{
    if k == 0 {
        assert(st.buf + latin1(b.subrange(st.i, st.i)) =~= st.buf);
        assert(st == XmlScan {
            i: st.i + k,
            stack: st.stack,
            buf: st.buf + latin1(b.subrange(st.i, st.i + k)),
            out: st.out,
        });
    } else {
        assert(b[st.i] != 60u8);
        let s2 = XmlScan { i: st.i + 1, stack: st.stack, buf: st.buf.push(b[st.i] as char), out: st.out };
        assert(xml_step(b, n, st) == XmlStep::Next(s2));
        lemma_run_bytes(b, n, s2, k - 1);
        assert(st.buf.push(b[st.i] as char) + latin1(b.subrange(st.i + 1, st.i + k)) =~= st.buf
            + latin1(b.subrange(st.i, st.i + k)));
    }
}

proof fn lemma_scalar_no_lt(v: u32)
    requires
        v != 60,
    ensures
        forall|j: int|
            0 <= j < vstd::utf8::encode_scalar(v).len() ==> #[trigger] vstd::utf8::encode_scalar(v)[j]
                != 60u8,
{
    assert(v <= 0x7F ==> vstd::utf8::leading_byte_width_1(v) != 60u8) by (bit_vector)
        requires
            v != 60u32,
    ;
    assert(vstd::utf8::leading_byte_width_2(v) != 60u8) by (bit_vector);
    assert(vstd::utf8::leading_byte_width_3(v) != 60u8) by (bit_vector);
    assert(vstd::utf8::leading_byte_width_4(v) != 60u8) by (bit_vector);
    assert(vstd::utf8::last_continuation_byte(v) != 60u8) by (bit_vector);
    assert(vstd::utf8::second_last_continuation_byte(v) != 60u8) by (bit_vector);
    assert(vstd::utf8::third_last_continuation_byte(v) != 60u8) by (bit_vector);
}

/// Text without `<` encodes to bytes without `<`.
pub proof fn lemma_encode_no_lt(t: Seq<char>)
    requires
        lacks(t, '<'),
    ensures
        forall|j: int| 0 <= j < encode_utf8(t).len() ==> #[trigger] encode_utf8(t)[j] != 60u8,
    decreases t.len(),
{
    if t.len() > 0 {
        let c = t[0];
        assert(c != '<');
        assert((c as u32) != 60u32) by {
            vstd::utf8::char_u32_cast(c, c as u32);
            vstd::utf8::char_u32_cast('<', 60u32);
        }
        lemma_scalar_no_lt(c as u32);
        let rest = t.drop_first();
        assert(lacks(rest, '<')) by {
            assert forall|i: int| 0 <= i < rest.len() implies #[trigger] rest[i] != '<' by {
                assert(rest[i] == t[i + 1]);
            }
        }
        lemma_encode_no_lt(rest);
        let e = encode_utf8(t);
        let a = vstd::utf8::encode_scalar(c as u32);
        assert forall|j: int| 0 <= j < e.len() implies #[trigger] e[j] != 60u8 by {
            if j < a.len() {
                assert(e[j] == a[j]);
            } else {
                assert(e[j] == encode_utf8(rest)[j - a.len()]);
            }
        }
    }
}

/// An element whose text holds no `<` but may hold any other characters.
pub open spec fn raw_ok(e: TextElem) -> bool {
    &&& blank(e.ws)
    &&& names_ok(e.prefix, e.local)
    &&& attrs_ok(e.attrs)
    &&& lacks(e.text, '<')
}

/// Such an element reports nothing for any other name and leaves the stack
/// as it was.
#[verifier::spinoff_prover]
#[verifier::rlimit(40)]
pub proof fn lemma_run_raw(b: Seq<u8>, n: Seq<char>, st: XmlScan, e: TextElem)
    requires
        enc_at(b, st.i, elem_chars(e)),
        raw_ok(e),
        blank(st.buf),
        n != e.local,
    ensures
        xml_run(b, n, st) == xml_run(
            b,
            n,
            XmlScan {
                i: st.i + encode_utf8(elem_chars(e)).len(),
                stack: st.stack,
                buf: Seq::empty(),
                out: st.out,
            },
        ),
{
    let ot = open_text(e.prefix, e.local, e.attrs);
    let ct = close_text(e.prefix, e.local);
    let o = e.ws + wrapped(ot);
    let c = wrapped(ct);
    assert(elem_chars(e) =~= o + (e.text + c));
    lemma_open_tag(st.stack, e.prefix, e.local, e.attrs);
    lemma_close_tag(st.stack.push(e.local), e.prefix, e.local);
    lemma_blank_ascii(e.ws);
    lemma_wrapped_ascii(ot);
    lemma_wrapped_ascii(ct);
    lemma_ascii_concat(e.ws, wrapped(ot));
    lemma_enc_at_split(b, st.i, o, e.text + c);
    lemma_enc_at_ascii(b, st.i, o);
    let i1 = st.i + o.len();
    lemma_enc_at_split(b, i1, e.text, c);
    let t = encode_utf8(e.text);
    let i2 = i1 + t.len();
    lemma_enc_at_ascii(b, i2, c);
    lemma_run_ws_tag(b, n, st, e.ws, ot);
    let s1 = XmlScan { i: i1, stack: st.stack.push(e.local), buf: Seq::empty(), out: st.out };
    assert(i1 == st.i + e.ws.len() + ot.len() + 2);
    lemma_encode_no_lt(e.text);
    assert forall|j: int| i1 <= j < i1 + t.len() implies #[trigger] b[j] != 60u8 by {
        assert(b.subrange(i1, i1 + t.len())[j - i1] == b[j]);
        assert(t[j - i1] != 60u8);
    }
    lemma_run_bytes(b, n, s1, t.len() as int);
    let s2 = XmlScan {
        i: i2,
        stack: st.stack.push(e.local),
        buf: Seq::empty() + latin1(b.subrange(i1, i2)),
        out: st.out,
    };
    lemma_run_tag(b, n, s2, ct);
    assert(flushed(s2, n) == st.out);
    assert(st.stack.push(e.local).drop_last() =~= st.stack);
    lemma_encode_concat(o, e.text + c);
    lemma_encode_concat(e.text, c);
    lemma_enc_at_ascii(b, i2, c);
}

/// One part of a document after optional white space: an opening tag, a
/// closing tag, or an element holding only text.
pub enum Piece {
    Open { ws: Seq<char>, prefix: Seq<char>, local: Seq<char>, attrs: Seq<char> },
    Close { ws: Seq<char>, prefix: Seq<char>, local: Seq<char> },
    Leaf(TextElem),
}

pub open spec fn piece_ok(p: Piece) -> bool {
    match p {
        Piece::Open { ws, prefix, local, attrs } => blank(ws) && names_ok(prefix, local) && attrs_ok(
            attrs,
        ),
        Piece::Close { ws, prefix, local } => blank(ws) && names_ok(prefix, local),
        Piece::Leaf(e) => elem_ok(e),
    }
}

pub open spec fn pieces_ok(ps: Seq<Piece>) -> bool {
    forall|k: int| 0 <= k < ps.len() ==> piece_ok(#[trigger] ps[k])
}

/// How a piece is written.
pub open spec fn piece_chars(p: Piece) -> Seq<char> {
    match p {
        Piece::Open { ws, prefix, local, attrs } => ws + wrapped(open_text(prefix, local, attrs)),
        Piece::Close { ws, prefix, local } => ws + wrapped(close_text(prefix, local)),
        Piece::Leaf(e) => elem_chars(e),
    }
}

pub open spec fn pieces_chars(ps: Seq<Piece>) -> Seq<char>
    decreases ps.len(),
{
    if ps.len() == 0 {
        Seq::empty()
    } else {
        piece_chars(ps[0]) + pieces_chars(ps.drop_first())
    }
}

/// What the scanner reports of a piece when asked for `n`.
pub open spec fn piece_picks(p: Piece, n: Seq<char>) -> Seq<Seq<char>> {
    match p {
        Piece::Leaf(e) => pick(e, n),
        _ => Seq::empty(),
    }
}

pub open spec fn pieces_picks(ps: Seq<Piece>, n: Seq<char>) -> Seq<Seq<char>>
    decreases ps.len(),
{
    if ps.len() == 0 {
        Seq::empty()
    } else {
        piece_picks(ps[0], n) + pieces_picks(ps.drop_first(), n)
    }
}

/// The open-element stack after a piece.
pub open spec fn piece_stack(stack: Seq<Seq<char>>, p: Piece) -> Seq<Seq<char>> {
    match p {
        Piece::Open { local, .. } => stack.push(local),
        Piece::Close { local, .. } => if stack.len() > 0 && stack.last() == local {
            stack.drop_last()
        } else {
            stack
        },
        Piece::Leaf(_) => stack,
    }
}

pub open spec fn pieces_stack(stack: Seq<Seq<char>>, ps: Seq<Piece>) -> Seq<Seq<char>>
    decreases ps.len(),
{
    if ps.len() == 0 {
        stack
    } else {
        pieces_stack(piece_stack(stack, ps[0]), ps.drop_first())
    }
}

/// One piece, read from blank pending text.
#[verifier::spinoff_prover]
pub proof fn lemma_run_piece(b: Seq<u8>, n: Seq<char>, st: XmlScan, p: Piece)
    requires
        bytes_at(b, st.i, piece_chars(p)),
        piece_ok(p),
        blank(st.buf),
    ensures
        xml_run(b, n, st) == xml_run(
            b,
            n,
            XmlScan {
                i: st.i + piece_chars(p).len(),
                stack: piece_stack(st.stack, p),
                buf: Seq::empty(),
                out: st.out + piece_picks(p, n),
            },
        ),
{
    assert(st.out + Seq::<Seq<char>>::empty() =~= st.out);
    match p {
        Piece::Open { ws, prefix, local, attrs } => {
            lemma_open_tag(st.stack, prefix, local, attrs);
            lemma_run_ws_tag(b, n, st, ws, open_text(prefix, local, attrs));
        },
        Piece::Close { ws, prefix, local } => {
            lemma_close_tag(st.stack, prefix, local);
            lemma_run_ws_tag(b, n, st, ws, close_text(prefix, local));
        },
        Piece::Leaf(e) => {
            lemma_run_elem(b, n, st, e);
        },
    }
}

/// Pieces read one after the other report their picks in order.
#[verifier::spinoff_prover]
pub proof fn lemma_run_pieces(b: Seq<u8>, n: Seq<char>, st: XmlScan, ps: Seq<Piece>)
    requires
        bytes_at(b, st.i, pieces_chars(ps)),
        pieces_ok(ps),
        blank(st.buf),
    ensures
        xml_run(b, n, st) == xml_run(
            b,
            n,
            XmlScan {
                i: st.i + pieces_chars(ps).len(),
                stack: pieces_stack(st.stack, ps),
                buf: if ps.len() == 0 {
                    st.buf
                } else {
                    Seq::empty()
                },
                out: st.out + pieces_picks(ps, n),
            },
        ),
    decreases ps.len(),
{
    if ps.len() == 0 {
        assert(st.out + Seq::<Seq<char>>::empty() =~= st.out);
        assert(st == XmlScan {
            i: st.i + 0,
            stack: st.stack,
            buf: st.buf,
            out: st.out + pieces_picks(ps, n),
        });
    } else {
        let p = ps[0];
        let rest = ps.drop_first();
        assert(piece_ok(p));
        lemma_bytes_at_split(b, st.i, piece_chars(p), pieces_chars(rest));
        lemma_run_piece(b, n, st, p);
        let s1 = XmlScan {
            i: st.i + piece_chars(p).len(),
            stack: piece_stack(st.stack, p),
            buf: Seq::empty(),
            out: st.out + piece_picks(p, n),
        };
        assert(pieces_ok(rest)) by {
            assert forall|k: int| 0 <= k < rest.len() implies piece_ok(#[trigger] rest[k]) by {
                assert(rest[k] == ps[k + 1]);
            }
        }
        assert(blank(Seq::<char>::empty()));
        lemma_run_pieces(b, n, s1, rest);
        assert(st.out + piece_picks(p, n) + pieces_picks(rest, n) =~= st.out + pieces_picks(ps, n));
    }
}

pub proof fn lemma_pieces_ascii(ps: Seq<Piece>)
    requires
        pieces_ok(ps),
    ensures
        all_ascii(pieces_chars(ps)),
    decreases ps.len(),
{
    if ps.len() > 0 {
        let p = ps[0];
        assert(piece_ok(p));
        match p {
            Piece::Open { ws, prefix, local, attrs } => {
                lemma_open_tag(Seq::empty(), prefix, local, attrs);
                lemma_blank_ascii(ws);
                lemma_wrapped_ascii(open_text(prefix, local, attrs));
                lemma_ascii_concat(ws, wrapped(open_text(prefix, local, attrs)));
            },
            Piece::Close { ws, prefix, local } => {
                lemma_close_tag(Seq::empty(), prefix, local);
                lemma_blank_ascii(ws);
                lemma_wrapped_ascii(close_text(prefix, local));
                lemma_ascii_concat(ws, wrapped(close_text(prefix, local)));
            },
            Piece::Leaf(e) => {
                lemma_elems_ascii(seq![e]);
                assert(seq![e].drop_first() =~= Seq::<TextElem>::empty());
                assert(elem_chars(e) + Seq::<char>::empty() =~= elem_chars(e));
            },
        }
        let rest = ps.drop_first();
        assert(pieces_ok(rest)) by {
            assert forall|k: int| 0 <= k < rest.len() implies piece_ok(#[trigger] rest[k]) by {
                assert(rest[k] == ps[k + 1]);
            }
        }
        lemma_pieces_ascii(rest);
        lemma_ascii_concat(piece_chars(p), pieces_chars(rest));
    }
}

/// Pieces written one list after the other.
pub proof fn lemma_pieces_concat(a: Seq<Piece>, c: Seq<Piece>, n: Seq<char>)
    ensures
        pieces_chars(a + c) == pieces_chars(a) + pieces_chars(c),
        pieces_picks(a + c, n) == pieces_picks(a, n) + pieces_picks(c, n),
        pieces_ok(a) && pieces_ok(c) ==> pieces_ok(a + c),
    decreases a.len(),
{
    if a.len() == 0 {
        assert(a + c =~= c);
        assert(Seq::<char>::empty() + pieces_chars(c) =~= pieces_chars(c));
        assert(Seq::<Seq<char>>::empty() + pieces_picks(c, n) =~= pieces_picks(c, n));
    } else {
        assert((a + c).drop_first() =~= a.drop_first() + c);
        assert((a + c)[0] == a[0]);
        lemma_pieces_concat(a.drop_first(), c, n);
        assert(piece_chars(a[0]) + (pieces_chars(a.drop_first()) + pieces_chars(c)) =~= (
        piece_chars(a[0]) + pieces_chars(a.drop_first())) + pieces_chars(c));
        assert(piece_picks(a[0], n) + (pieces_picks(a.drop_first(), n) + pieces_picks(c, n)) =~= (
        piece_picks(a[0], n) + pieces_picks(a.drop_first(), n)) + pieces_picks(c, n));
    }
    if pieces_ok(a) && pieces_ok(c) {
        assert forall|k: int| 0 <= k < (a + c).len() implies piece_ok(#[trigger] (a + c)[k]) by {
            if k < a.len() {
                assert((a + c)[k] == a[k]);
            } else {
                assert((a + c)[k] == c[k - a.len()]);
            }
        }
    }
}

/// No piece is picked: nothing is reported.
pub proof fn lemma_pieces_picks_none(ps: Seq<Piece>, n: Seq<char>)
    requires
        forall|j: int| 0 <= j < ps.len() ==> #[trigger] piece_picks(ps[j], n).len() == 0,
    ensures
        pieces_picks(ps, n) == Seq::<Seq<char>>::empty(),
    decreases ps.len(),
{
    if ps.len() > 0 {
        let rest = ps.drop_first();
        assert forall|j: int| 0 <= j < rest.len() implies #[trigger] piece_picks(rest[j], n).len() == 0 by {
            assert(rest[j] == ps[j + 1]);
            assert(piece_picks(ps[j + 1], n).len() == 0);
        }
        lemma_pieces_picks_none(rest, n);
        assert(piece_picks(ps[0], n).len() == 0);
        assert(piece_picks(ps[0], n) =~= Seq::<Seq<char>>::empty());
        assert(Seq::<Seq<char>>::empty() + Seq::<Seq<char>>::empty() =~= Seq::<Seq<char>>::empty());
    }
}

/// Exactly one piece is picked: its text alone is reported.
pub proof fn lemma_pieces_picks_one(ps: Seq<Piece>, n: Seq<char>, k: int, t: Seq<char>)
    requires
        0 <= k < ps.len(),
        piece_picks(ps[k], n) == seq![t],
        forall|j: int| 0 <= j < ps.len() && j != k ==> #[trigger] piece_picks(ps[j], n).len() == 0,
    ensures
        pieces_picks(ps, n) == seq![t],
    decreases ps.len(),
{
    let rest = ps.drop_first();
    if k == 0 {
        assert forall|j: int| 0 <= j < rest.len() implies #[trigger] piece_picks(rest[j], n).len() == 0 by {
            assert(rest[j] == ps[j + 1]);
            assert(piece_picks(ps[j + 1], n).len() == 0);
        }
        lemma_pieces_picks_none(rest, n);
        assert(seq![t] + Seq::<Seq<char>>::empty() =~= seq![t]);
    } else {
        assert forall|j: int| 0 <= j < rest.len() && j != k - 1 implies #[trigger] piece_picks(
            rest[j],
            n,
        ).len() == 0 by {
            assert(rest[j] == ps[j + 1]);
            assert(piece_picks(ps[j + 1], n).len() == 0);
        }
        assert(rest[k - 1] == ps[k]);
        lemma_pieces_picks_one(rest, n, k - 1, t);
        assert(piece_picks(ps[0], n).len() == 0);
        assert(piece_picks(ps[0], n) =~= Seq::<Seq<char>>::empty());
        assert(Seq::<Seq<char>>::empty() + seq![t] =~= seq![t]);
    }
}

/// A declaration, pieces, an element whose text may hold any character but
/// `<`, and more pieces.
pub open spec fn raw_doc_chars(
    decl: Seq<char>,
    pre: Seq<Piece>,
    raw: TextElem,
    post: Seq<Piece>,
) -> Seq<char> {
    (seq!['<', '?'] + decl + seq!['?', '>']) + (pieces_chars(pre) + (elem_chars(raw) + pieces_chars(
        post,
    )))
}

/// What the scanner reports for a name other than the loose element's: the
/// picks of the pieces, in order.
#[verifier::spinoff_prover]
#[verifier::rlimit(40)]
pub proof fn lemma_raw_doc_texts(
    decl: Seq<char>,
    pre: Seq<Piece>,
    raw: TextElem,
    post: Seq<Piece>,
    n: Seq<char>,
)
    requires
        all_ascii(decl),
        lacks(decl, '>'),
        lacks(decl, '?'),
        pieces_ok(pre),
        raw_ok(raw),
        pieces_ok(post),
        n != raw.local,
    ensures
        crate::xmlutil::texts_in(raw_doc_chars(decl, pre, raw, post), n) == pieces_picks(pre, n)
            + pieces_picks(post, n),
{
    let x = raw_doc_chars(decl, pre, raw, post);
    let b = encode_utf8(x);
    let dc = seq!['<', '?'] + decl + seq!['?', '>'];
    let pc = pieces_chars(pre);
    let rc = elem_chars(raw);
    let qc = pieces_chars(post);
    assert(enc_at(b, 0, x)) by {
        assert(b.subrange(0, b.len() as int) =~= b);
    }
    lemma_punct_ascii(seq!['<', '?']);
    lemma_punct_ascii(seq!['?', '>']);
    lemma_ascii_concat(seq!['<', '?'], decl);
    lemma_ascii_concat(seq!['<', '?'] + decl, seq!['?', '>']);
    lemma_pieces_ascii(pre);
    lemma_pieces_ascii(post);
    lemma_enc_at_split(b, 0, dc, pc + (rc + qc));
    lemma_enc_at_ascii(b, 0, dc);
    let i1 = dc.len() as int;
    lemma_enc_at_split(b, i1, pc, rc + qc);
    lemma_enc_at_ascii(b, i1, pc);
    let i2 = i1 + pc.len();
    lemma_enc_at_split(b, i2, rc, qc);
    let i3 = i2 + encode_utf8(rc).len();
    lemma_enc_at_ascii(b, i3, qc);
    let i4 = i3 + qc.len();
    lemma_encode_concat(dc, pc + (rc + qc));
    lemma_encode_concat(pc, rc + qc);
    lemma_encode_concat(rc, qc);
    assert(i4 == b.len());
    let st0 = XmlScan { i: 0, stack: Seq::empty(), buf: Seq::empty(), out: Seq::empty() };
    lemma_run_decl(b, n, st0, decl);
    lemma_blank_trim(Seq::<char>::empty());
    assert(flushed(st0, n) =~= Seq::<Seq<char>>::empty());
    assert(blank(Seq::<char>::empty()));
    let s1 = XmlScan { i: i1, stack: Seq::empty(), buf: Seq::empty(), out: Seq::empty() };
    lemma_run_pieces(b, n, s1, pre);
    let k1 = pieces_stack(Seq::empty(), pre);
    let s2 = XmlScan { i: i2, stack: k1, buf: Seq::empty(), out: pieces_picks(pre, n) };
    assert(xml_run(b, n, s1) == xml_run(b, n, s2)) by {
        assert(Seq::<Seq<char>>::empty() + pieces_picks(pre, n) =~= pieces_picks(pre, n));
        if pre.len() == 0 {
            assert(pieces_picks(pre, n) =~= Seq::<Seq<char>>::empty());
        }
    }
    lemma_run_raw(b, n, s2, raw);
    let s3 = XmlScan { i: i3, stack: k1, buf: Seq::empty(), out: pieces_picks(pre, n) };
    lemma_run_pieces(b, n, s3, post);
    let s4 = XmlScan {
        i: i4,
        stack: pieces_stack(k1, post),
        buf: if post.len() == 0 {
            Seq::empty()
        } else {
            Seq::empty()
        },
        out: pieces_picks(pre, n) + pieces_picks(post, n),
    };
    assert(xml_run(b, n, s4) == s4.out);
}

pub proof fn lemma_name(s: Seq<char>)
    requires
        s.len() > 0,
        forall|i: int| 0 <= i < s.len() ==> ('a' <= #[trigger] s[i] <= 'z') || ('A' <= s[i] <= 'Z') || ('0' <= s[i] <= '9'),
    ensures
        is_name(s),
{
    assert(('a' <= s[0] <= 'z') || ('A' <= s[0] <= 'Z') || ('0' <= s[0] <= '9'));
    assert(('a' <= s[s.len() - 1] <= 'z') || ('A' <= s[s.len() - 1] <= 'Z') || ('0' <= s[s.len() - 1] <= '9'));
}

pub proof fn lemma_plain_text(s: Seq<char>)
    requires
        forall|i: int| 0 <= i < s.len() ==> ('!' <= #[trigger] s[i] <= '~') && s[i] != '<',
    ensures
        all_ascii(s),
        lacks(s, '<'),
{
}

pub proof fn lemma_decimal_text(n: nat)
    ensures
        all_ascii(decimal(n)),
        lacks(decimal(n), '<'),
        decimal(n).len() > 0,
{
    lemma_decimal_digits(n);
    assert(decimal(n).len() > 0);
    assert forall|i: int| 0 <= i < decimal(n).len() implies ('!' <= #[trigger] decimal(n)[i] <= '~') && decimal(n)[i] != '<' by {
        assert(is_digit(decimal(n)[i]));
    }
    lemma_plain_text(decimal(n));
}

pub proof fn lemma_elem_ok(ws: Seq<char>, p: Seq<char>, l: Seq<char>, text: Seq<char>)
    requires
        blank(ws),
        is_name(p),
        is_name(l),
        all_ascii(text),
        lacks(text, '<'),
    ensures
        elem_ok(text_elem(ws, p, l, text)),
{
}

/// Two sequences that differ at one index differ.
pub proof fn lemma_differ_at(a: Seq<char>, b: Seq<char>, i: int)
    requires
        0 <= i < a.len(),
        0 <= i < b.len(),
        a[i] != b[i],
    ensures
        a != b,
{
}

/// `hay` has no two adjacent characters equal to the start of `needle`, so
/// it does not contain `needle`.
pub proof fn lemma_not_contains(hay: Seq<char>, needle: Seq<char>)
    requires
        needle.len() >= 2,
        forall|i: int| 0 <= i < hay.len() - 1 ==> !(#[trigger] hay[i] == needle[0] && hay[i + 1] == needle[1]),
    ensures
        !seq_contains(hay, needle),
{
    if seq_contains(hay, needle) {
        let i = choose|i: int| occurs_at(hay, needle, i);
        assert(hay.subrange(i, i + needle.len())[0] == hay[i]);
        assert(hay.subrange(i, i + needle.len())[1] == hay[i + 1]);
    }
}

pub proof fn lemma_decimal_trim(n: nat)
    ensures
        decimal(n).len() > 0,
        trim(decimal(n)) == decimal(n),
{
    lemma_decimal_digits(n);
    assert(decimal(n).len() > 0);
    assert(is_digit(decimal(n)[0]));
    assert(is_digit(decimal(n).last()));
    lemma_trim_plain(decimal(n));
}


/// `pieces_chars` of a list grown at the end.
pub proof fn lemma_pieces_chars_push(ps: Seq<Piece>, p: Piece)
    ensures
        pieces_chars(ps.push(p)) == pieces_chars(ps) + piece_chars(p),
{
    lemma_pieces_concat(ps, seq![p], Seq::empty());
    assert(ps + seq![p] =~= ps.push(p));
    assert(seq![p].drop_first() =~= Seq::<Piece>::empty());
    assert(pieces_chars(seq![p]) == piece_chars(p) + pieces_chars(Seq::<Piece>::empty()));
    assert(piece_chars(p) + Seq::<char>::empty() =~= piece_chars(p));
}

/// Append a name, with its prefix and `:` when there is a prefix.
pub fn push_qname(s: &mut String, p: &str, l: &str)
    ensures
        final(s)@ == old(s)@ + qname(p@, l@),
{
    if p.is_empty() {
        s.append(l);
    } else {
        s.append(p);
        s.append(":");
        s.append(l);
        proof {
            reveal_strlit(":");
        }
        assert(final(s)@ =~= old(s)@ + qname(p@, l@));
    }
}

/// Append `ws<p:l attrs>` and record it as a piece.
pub fn add_open(
    s: &mut String,
    Ghost(ps): Ghost<Seq<Piece>>,
    ws: &str,
    p: &str,
    l: &str,
    attrs: &str,
) -> (r: Ghost<Seq<Piece>>)
    requires
        old(s)@ == pieces_chars(ps),
    ensures
        r@ == ps.push(Piece::Open { ws: ws@, prefix: p@, local: l@, attrs: attrs@ }),
        final(s)@ == pieces_chars(r@),
{
    let ghost piece = Piece::Open { ws: ws@, prefix: p@, local: l@, attrs: attrs@ };
    s.append(ws);
    s.append("<");
    push_qname(s, p, l);
    s.append(attrs);
    s.append(">");
    proof {
        reveal_strlit("<");
        reveal_strlit(">");
        lemma_pieces_chars_push(ps, piece);
    }
    assert(final(s)@ =~= pieces_chars(ps) + piece_chars(piece));
    Ghost(ps.push(piece))
}

/// Append `ws</p:l>` and record it as a piece.
pub fn add_close(s: &mut String, Ghost(ps): Ghost<Seq<Piece>>, ws: &str, p: &str, l: &str) -> (r: Ghost<
    Seq<Piece>,
>)
    requires
        old(s)@ == pieces_chars(ps),
    ensures
        r@ == ps.push(Piece::Close { ws: ws@, prefix: p@, local: l@ }),
        final(s)@ == pieces_chars(r@),
{
    let ghost piece = Piece::Close { ws: ws@, prefix: p@, local: l@ };
    s.append(ws);
    s.append("</");
    push_qname(s, p, l);
    s.append(">");
    proof {
        reveal_strlit("</");
        reveal_strlit(">");
        lemma_pieces_chars_push(ps, piece);
    }
    assert(final(s)@ =~= pieces_chars(ps) + piece_chars(piece));
    Ghost(ps.push(piece))
}

/// Append `ws<p:l attrs>text</p:l>`.
pub fn push_text_elem(s: &mut String, ws: &str, p: &str, l: &str, attrs: &str, text: &str)
    ensures
        final(s)@ == old(s)@ + elem_chars(
            TextElem { ws: ws@, prefix: p@, local: l@, attrs: attrs@, text: text@ },
        ),
{
    s.append(ws);
    s.append("<");
    push_qname(s, p, l);
    s.append(attrs);
    s.append(">");
    s.append(text);
    s.append("</");
    push_qname(s, p, l);
    s.append(">");
    proof {
        reveal_strlit("<");
        reveal_strlit("</");
        reveal_strlit(">");
    }
    assert(final(s)@ =~= old(s)@ + elem_chars(
        TextElem { ws: ws@, prefix: p@, local: l@, attrs: attrs@, text: text@ },
    ));
}

/// Append `ws<p:l attrs>text</p:l>` and record it as a piece.
pub fn add_leaf(
    s: &mut String,
    Ghost(ps): Ghost<Seq<Piece>>,
    ws: &str,
    p: &str,
    l: &str,
    attrs: &str,
    text: &str,
) -> (r: Ghost<Seq<Piece>>)
    requires
        old(s)@ == pieces_chars(ps),
    ensures
        r@ == ps.push(
            Piece::Leaf(TextElem { ws: ws@, prefix: p@, local: l@, attrs: attrs@, text: text@ }),
        ),
        final(s)@ == pieces_chars(r@),
{
    let ghost piece = Piece::Leaf(
        TextElem { ws: ws@, prefix: p@, local: l@, attrs: attrs@, text: text@ },
    );
    push_text_elem(s, ws, p, l, attrs, text);
    proof {
        lemma_pieces_chars_push(ps, piece);
    }
    Ghost(ps.push(piece))
}

} // verus!
