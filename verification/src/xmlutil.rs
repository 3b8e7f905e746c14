//! Namespace-tolerant XML helpers. HP firmware mixes prefixes (`wscn:`,
//! `scc:`, `scan:`) and default xmlns; only local names are ever matched.
use crate::text::{
    chars_eq, chars_of, contains_chars, find_chars, lemma_find_from, seq_contains, split, split_chars, find_bytes_spec, find_from, is_white, is_white_char, lemma_find_from_ge,
    string_from_chars, trim, trim_chars, trim_start, views,
};
use vstd::prelude::*;
use vstd::string::StringSliceAdditionalSpecFns;

verus! {

/// The part of `s` after its last `:` (all of `s` when it has none).
pub open spec fn after_last_colon(s: Seq<char>) -> Seq<char>
    decreases s.len(),
{
    if s.len() == 0 {
        s
    } else if s.last() == ':' {
        Seq::empty()
    } else {
        after_last_colon(s.drop_last()).push(s.last())
    }
}

pub(crate) proof fn lemma_after_last_colon(s: Seq<char>, k: int)
    requires
        -1 <= k < s.len(),
        k >= 0 ==> s[k] == ':',
        forall|j: int| k < j < s.len() ==> s[j] != ':',
    ensures
        after_last_colon(s) == s.subrange(k + 1, s.len() as int),
    decreases s.len(),
{
    if s.len() == 0 {
    } else if k == s.len() - 1 {
        assert(s.subrange(k + 1, s.len() as int) =~= Seq::<char>::empty());
    } else {
        lemma_after_last_colon(s.drop_last(), k);
        assert(s.drop_last().subrange(k + 1, s.len() - 1).push(s.last()) =~= s.subrange(
            k + 1,
            s.len() as int,
        ));
    }
}

fn after_last_colon_chars(s: &[char]) -> (r: Vec<char>)
    ensures
        r@ == after_last_colon(s@),
{
    let mut k: usize = s.len();
    while k > 0 && s[k - 1] != ':'
        invariant
            k <= s@.len(),
            forall|j: int| k <= j < s@.len() ==> s@[j] != ':',
        decreases k,
    {
        k = k - 1;
    }
    proof {
        lemma_after_last_colon(s@, k - 1);
    }
    let mut r: Vec<char> = Vec::new();
    let mut j: usize = k;
    while j < s.len()
        invariant
            k <= j <= s@.len(),
            r@ == s@.subrange(k as int, j as int),
        decreases s@.len() - j,
    {
        r.push(s[j]);
        j = j + 1;
        assert(r@ =~= s@.subrange(k as int, j as int));
    }
    r
}

/// The local part of a (possibly prefixed) XML name: `wscn:Item` is `Item`.
pub fn local_name(raw: &str) -> (r: &str)
    ensures
        r@ == after_last_colon(raw@),
{
    let s = chars_of(raw);
    let mut k: usize = s.len();
    while k > 0 && s[k - 1] != ':'
        invariant
            s@ == raw@,
            k <= s@.len(),
            forall|j: int| k <= j < s@.len() ==> s@[j] != ':',
        decreases k,
    {
        k = k - 1;
    }
    proof {
        lemma_after_last_colon(s@, k - 1);
    }
    raw.substring_char(k, s.len())
}

/// The leading run of non-white characters.
pub open spec fn token_prefix(u: Seq<char>) -> Seq<char>
    decreases u.len(),
{
    if u.len() == 0 || is_white(u[0]) {
        Seq::empty()
    } else {
        seq![u[0]] + token_prefix(u.drop_first())
    }
}

/// `str::split_whitespace().next().unwrap_or("")`.
pub open spec fn first_token(s: Seq<char>) -> Seq<char> {
    token_prefix(trim_start(s))
}

/// `str::trim_end_matches('/')`.
pub open spec fn trim_end_slashes(s: Seq<char>) -> Seq<char>
    decreases s.len(),
{
    if s.len() > 0 && s.last() == '/' {
        trim_end_slashes(s.drop_last())
    } else {
        s
    }
}

pub(crate) proof fn lemma_trim_start_at(s: Seq<char>, i: int)
    requires
        0 <= i <= s.len(),
        forall|k: int| 0 <= k < i ==> is_white(#[trigger] s[k]),
        i < s.len() ==> !is_white(s[i]),
    ensures
        trim_start(s) == s.subrange(i, s.len() as int),
    decreases i,
{
    if i > 0 {
        lemma_trim_start_at(s.drop_first(), i - 1);
        assert(s.drop_first().subrange(i - 1, s.len() - 1) =~= s.subrange(i, s.len() as int));
    } else {
        assert(s.subrange(0, s.len() as int) =~= s);
    }
}

pub(crate) proof fn lemma_token_prefix_at(u: Seq<char>, j: int)
    requires
        0 <= j <= u.len(),
        forall|k: int| 0 <= k < j ==> !is_white(#[trigger] u[k]),
        j < u.len() ==> is_white(u[j]),
    ensures
        token_prefix(u) == u.subrange(0, j),
    decreases j,
{
    if j > 0 {
        lemma_token_prefix_at(u.drop_first(), j - 1);
        assert(seq![u[0]] + u.drop_first().subrange(0, j - 1) =~= u.subrange(0, j));
    } else {
        assert(u.subrange(0, 0) =~= Seq::<char>::empty());
    }
}

pub fn first_token_chars(s: &[char]) -> (r: Vec<char>)
    ensures
        r@ == first_token(s@),
{
    let mut i: usize = 0;
    while i < s.len() && is_white_char(s[i])
        invariant
            i <= s@.len(),
            forall|k: int| 0 <= k < i ==> is_white(#[trigger] s@[k]),
        decreases s@.len() - i,
    {
        i = i + 1;
    }
    proof {
        lemma_trim_start_at(s@, i as int);
    }
    let mut r: Vec<char> = Vec::new();
    let mut j: usize = i;
    while j < s.len() && !is_white_char(s[j])
        invariant
            i <= j <= s@.len(),
            r@ == s@.subrange(i as int, j as int),
            forall|k: int| i <= k < j ==> !is_white(#[trigger] s@[k]),
        decreases s@.len() - j,
    {
        r.push(s[j]);
        j = j + 1;
        assert(r@ =~= s@.subrange(i as int, j as int));
    }
    proof {
        let u = s@.subrange(i as int, s@.len() as int);
        assert forall|k: int| 0 <= k < j - i implies !is_white(#[trigger] u[k]) by {
            assert(u[k] == s@[i + k]);
        }
        lemma_token_prefix_at(u, (j - i) as int);
        assert(u.subrange(0, (j - i) as int) =~= s@.subrange(i as int, j as int));
    }
    r
}

proof fn lemma_trim_end_slashes(s: Seq<char>, k: int)
    requires
        0 <= k <= s.len(),
        forall|j: int| k <= j < s.len() ==> s[j] == '/',
        k > 0 ==> s[k - 1] != '/',
    ensures
        trim_end_slashes(s) == s.subrange(0, k),
    decreases s.len(),
{
    if s.len() > k {
        lemma_trim_end_slashes(s.drop_last(), k);
        assert(s.drop_last().subrange(0, k) =~= s.subrange(0, k));
    } else {
        assert(s.subrange(0, k) =~= s);
    }
}

fn trim_end_slashes_chars(s: &[char]) -> (r: Vec<char>)
    ensures
        r@ == trim_end_slashes(s@),
{
    let mut k: usize = s.len();
    while k > 0 && s[k - 1] == '/'
        invariant
            k <= s@.len(),
            forall|j: int| k <= j < s@.len() ==> s@[j] == '/',
        decreases k,
    {
        k = k - 1;
    }
    proof {
        lemma_trim_end_slashes(s@, k as int);
    }
    let mut r: Vec<char> = Vec::new();
    let mut j: usize = 0;
    while j < k
        invariant
            j <= k <= s@.len(),
            r@ == s@.subrange(0, j as int),
        decreases k - j,
    {
        r.push(s[j]);
        j = j + 1;
        assert(r@ =~= s@.subrange(0, j as int));
    }
    r
}

/// The text of a tag's bytes: its characters when it is valid UTF-8,
/// otherwise nothing.
pub open spec fn tag_text(b: Seq<u8>) -> Seq<char> {
    if vstd::utf8::valid_utf8(b) {
        vstd::utf8::decode_utf8(b)
    } else {
        Seq::empty()
    }
}

/// How a tag changes the stack of open elements: a closing tag pops the
/// top when it names it; an opening, not self-closing, named tag pushes
/// its local name.
pub open spec fn apply_tag(stack: Seq<Seq<char>>, t: Seq<char>) -> Seq<Seq<char>> {
    if t.len() > 0 && t[0] == '/' {
        let ln = after_last_colon(first_token(t.drop_first()));
        if stack.len() > 0 && stack.last() == ln {
            stack.drop_last()
        } else {
            stack
        }
    } else {
        let self_close = t.len() > 0 && t.last() == '/';
        let ln = after_last_colon(first_token(trim_end_slashes(t)));
        if !self_close && ln.len() > 0 {
            stack.push(ln)
        } else {
            stack
        }
    }
}

fn apply_tag_exec(stack: &mut Vec<Vec<char>>, t: &[char])
    ensures
        views(final(stack)@) == apply_tag(views(old(stack)@), t@),
{
    let ghost sv = views(stack@);
    if t.len() > 0 && t[0] == '/' {
        let mut rest: Vec<char> = Vec::new();
        let mut k: usize = 1;
        while k < t.len()
            invariant
                1 <= k <= t@.len(),
                rest@ == t@.subrange(1, k as int),
            decreases t@.len() - k,
        {
            rest.push(t[k]);
            k = k + 1;
            assert(rest@ =~= t@.subrange(1, k as int));
        }
        assert(rest@ =~= t@.drop_first());
        let tok = first_token_chars(rest.as_slice());
        let ln = after_last_colon_chars(tok.as_slice());
        let n = stack.len();
        if n > 0 && chars_eq(stack[n - 1].as_slice(), ln.as_slice()) {
            let _ = stack.pop();
            assert(views(stack@) =~= sv.drop_last());
        }
    } else {
        let self_close = t.len() > 0 && t[t.len() - 1] == '/';
        let trimmed = trim_end_slashes_chars(t);
        let tok = first_token_chars(trimmed.as_slice());
        let ln = after_last_colon_chars(tok.as_slice());
        if !self_close && ln.len() > 0 {
            stack.push(ln);
            assert(views(stack@) =~= sv.push(ln@));
        }
    }
}

/// Scanner state: position, open elements, pending text, texts found.
pub struct XmlScan {
    pub i: int,
    pub stack: Seq<Seq<char>>,
    pub buf: Seq<char>,
    pub out: Seq<Seq<char>>,
}

/// Outcome of one scanner step.
pub enum XmlStep {
    Next(XmlScan),
    Stop(Seq<Seq<char>>),
}

/// `out` with the pending text added when it is not blank and the
/// innermost open element is `name`.
pub open spec fn flushed(st: XmlScan, name: Seq<char>) -> Seq<Seq<char>> {
    let t = trim(st.buf);
    if t.len() > 0 && st.stack.len() > 0 && st.stack.last() == name {
        st.out.push(t)
    } else {
        st.out
    }
}

/// The bytes of `-->`.
pub open spec fn comment_close() -> Seq<u8> {
    seq![45u8, 45u8, 62u8]
}

/// The bytes of `?>`.
pub open spec fn pi_close() -> Seq<u8> {
    seq![63u8, 62u8]
}

/// The byte `>`.
pub open spec fn gt() -> Seq<u8> {
    seq![62u8]
}

/// One scanner step at `st.i` (which lies inside `b`). Text bytes are
/// collected one character per byte; at `<` the pending text is flushed,
/// then comments (`<!--...-->`), other `<!...>` and `<?...?>` are skipped,
/// and a tag up to the next `>` updates the stack. A `<` without a later
/// `>` stops the scan.
pub open spec fn xml_step(b: Seq<u8>, name: Seq<char>, st: XmlScan) -> XmlStep {
    let i = st.i;
    if b[i] != 60u8 {
        XmlStep::Next(XmlScan { i: i + 1, buf: st.buf.push(b[i] as char), ..st })
    } else {
        let out = flushed(st, name);
        let start = i + 1;
        let bang = start < b.len() && b[start] == 33u8;
        let comment_end = if bang && start + 1 < b.len() && b[start + 1] == 45u8 {
            find_from(b, comment_close(), i)
        } else {
            None
        };
        let bang_end = if bang {
            find_from(b, gt(), start)
        } else {
            None
        };
        let pi_end = if start < b.len() && b[start] == 63u8 {
            find_from(b, pi_close(), i)
        } else {
            None
        };
        if comment_end is Some {
            XmlStep::Next(
                XmlScan { i: comment_end->0 + 3, stack: st.stack, buf: Seq::empty(), out },
            )
        } else if bang_end is Some {
            XmlStep::Next(XmlScan { i: bang_end->0 + 1, stack: st.stack, buf: Seq::empty(), out })
        } else if pi_end is Some {
            XmlStep::Next(XmlScan { i: pi_end->0 + 2, stack: st.stack, buf: Seq::empty(), out })
        } else {
            match find_from(b, gt(), start) {
                Some(end) => XmlStep::Next(
                    XmlScan {
                        i: end + 1,
                        stack: apply_tag(st.stack, tag_text(b.subrange(start, end))),
                        buf: Seq::empty(),
                        out,
                    },
                ),
                None => XmlStep::Stop(out),
            }
        }
    }
}

/// The scanner run from `st` to the end of `b`.
pub open spec fn xml_run(b: Seq<u8>, name: Seq<char>, st: XmlScan) -> Seq<Seq<char>>
    decreases b.len() - st.i,
{
    if st.i < 0 || st.i >= b.len() {
        st.out
    } else {
        match xml_step(b, name, st) {
            XmlStep::Next(s2) => if s2.i > st.i {
                xml_run(b, name, s2)
            } else {
                s2.out
            },
            XmlStep::Stop(out) => out,
        }
    }
}

/// Every trimmed, non-blank text node whose innermost enclosing element
/// has local name `name`, in document order.
pub open spec fn spec_texts_named(xml: Seq<u8>, name: Seq<char>) -> Seq<Seq<char>> {
    xml_run(xml, name, XmlScan { i: 0, stack: Seq::empty(), buf: Seq::empty(), out: Seq::empty() })
}


/// The views of a sequence of strings.
pub open spec fn string_views(v: Seq<String>) -> Seq<Seq<char>> {
    v.map_values(|x: String| x@)
}

/// Strings made of each character vector.
pub fn strings_of(v: &Vec<Vec<char>>) -> (r: Vec<String>)
    ensures
        string_views(r@) == views(v@),
{
    let mut r: Vec<String> = Vec::new();
    for i in 0..v.len()
        invariant
            string_views(r@) == views(v@.take(i as int)),
    {
        let s = string_from_chars(v[i].as_slice());
        let ghost before = string_views(r@);
        r.push(s);
        assert(string_views(r@) =~= before.push(v@[i as int]@));
        assert(views(v@.take(i + 1)) =~= views(v@.take(i as int)).push(v@[i as int]@));
    }
    assert(v@.take(v@.len() as int) =~= v@);
    r
}

fn flush_exec(out: &mut Vec<Vec<char>>, stack: &Vec<Vec<char>>, buf: &Vec<char>, name: &Vec<char>)
    ensures
        views(final(out)@) == flushed(
            XmlScan { i: 0, stack: views(stack@), buf: buf@, out: views(old(out)@) },
            name@,
        ),
{
    let t = trim_chars(buf.as_slice());
    let n = stack.len();
    if t.len() > 0 && n > 0 && chars_eq(stack[n - 1].as_slice(), name.as_slice()) {
        let ghost before = views(out@);
        let ghost tv = t@;
        out.push(t);
        assert(views(out@) =~= before.push(tv));
    }
}

fn copy_bytes(b: &[u8], from: usize, to: usize) -> (r: Vec<u8>)
    requires
        from <= to <= b@.len(),
    ensures
        r@ == b@.subrange(from as int, to as int),
{
    let mut r: Vec<u8> = Vec::new();
    r.extend_from_slice(&b[from..to]);
    assert(r@ =~= b@.subrange(from as int, to as int));
    r
}

#[verifier::rlimit(40)]
#[verifier::spinoff_prover]
fn markup_step(
    b: &[u8],
    nm: &Vec<char>,
    i: usize,
    stack: &mut Vec<Vec<char>>,
    buf: &mut Vec<char>,
    out: &mut Vec<Vec<char>>,
) -> (r: Option<usize>)
    requires
        i < b@.len() <= usize::MAX,
        b@[i as int] == 60u8,
    ensures
        match xml_step(
            b@,
            nm@,
            XmlScan {
                i: i as int,
                stack: views(old(stack)@),
                buf: old(buf)@,
                out: views(old(out)@),
            },
        ) {
            XmlStep::Next(s2) => r == Some(s2.i as usize) && i < s2.i <= b@.len() && s2.stack
                == views(final(stack)@) && s2.buf == final(buf)@ && s2.out == views(final(out)@),
            XmlStep::Stop(o) => r is None && o == views(final(out)@),
        },
{
    let ghost cur = XmlScan {
        i: i as int,
        stack: views(stack@),
        buf: buf@,
        out: views(out@),
    };
    let ghost bs = b@;
    flush_exec(out, stack, buf, nm);
    *buf = Vec::new();
    assert(buf@ =~= Seq::<char>::empty());
    let start = i + 1;
    let bang = start < b.len() && b[start] == 33u8;
    let comment_end = if bang && start + 1 < b.len() && b[start + 1] == 45u8 {
        let cc: [u8; 3] = [45u8, 45u8, 62u8];
        assert(cc@ == comment_close());
        find_bytes_spec(b, cc.as_slice(), i)
    } else {
        None
    };
    let bang_end = if bang {
        let g: [u8; 1] = [62u8];
        assert(g@ == gt());
        find_bytes_spec(b, g.as_slice(), start)
    } else {
        None
    };
    let pi_end = if start < b.len() && b[start] == 63u8 {
        let pc: [u8; 2] = [63u8, 62u8];
        assert(pc@ == pi_close());
        find_bytes_spec(b, pc.as_slice(), i)
    } else {
        None
    };
    proof {
        lemma_find_from_ge(bs, comment_close(), i as int);
        lemma_find_from_ge(bs, gt(), start as int);
        lemma_find_from_ge(bs, pi_close(), i as int);
    }
    if let Some(e) = comment_end {
        Some(e + 3)
    } else if let Some(e) = bang_end {
        Some(e + 1)
    } else if let Some(e) = pi_end {
        Some(e + 2)
    } else {
        let g: [u8; 1] = [62u8];
        assert(g@ == gt());
        let found = find_bytes_spec(b, g.as_slice(), start);
        match found {
            Some(end) => {
                let tb = copy_bytes(b, start, end);
                let t = match crate::text::utf8_chars(tb.as_slice()) {
                    Some(v) => v,
                    None => Vec::new(),
                };
                assert(t@ == tag_text(bs.subrange(start as int, end as int)));
                apply_tag_exec(stack, t.as_slice());
                Some(end + 1)
            },
            None => None,
        }
    }
}

/// Walk `xml` and collect every text node whose enclosing element's local
/// name equals `name` (case-sensitive, prefix stripped), trimmed; blank
/// text is skipped.
#[verifier::spinoff_prover]
pub fn texts_named(xml: &str, name: &str) -> (r: Vec<String>)
    ensures
        string_views(r@) == texts_in(xml@, name@),
        string_views(r@) == spec_texts_named(xml.spec_bytes(), name@),
{
    let b = xml.as_bytes();
    let nm = chars_of(name);
    let mut stack: Vec<Vec<char>> = Vec::new();
    let mut buf: Vec<char> = Vec::new();
    let mut out: Vec<Vec<char>> = Vec::new();
    let mut i: usize = 0;
    let ghost bs = b@;
    let ghost target = spec_texts_named(xml.spec_bytes(), name@);
    assert(views(stack@) =~= Seq::<Seq<char>>::empty());
    assert(views(out@) =~= Seq::<Seq<char>>::empty());
    assert(buf@ =~= Seq::<char>::empty());
    while i < b.len()
        invariant
            bs == b@,
            nm@ == name@,
            i <= bs.len(),
            target == spec_texts_named(xml.spec_bytes(), name@),
            bs == xml.spec_bytes(),
            xml_run(
                bs,
                nm@,
                XmlScan { i: i as int, stack: views(stack@), buf: buf@, out: views(out@) },
            ) == target,
        decreases bs.len() - i,
    {
        let ghost cur = XmlScan {
            i: i as int,
            stack: views(stack@),
            buf: buf@,
            out: views(out@),
        };
        if b[i] != 60u8 {
            buf.push(b[i] as char);
            i = i + 1;
            assert(xml_step(bs, nm@, cur) == XmlStep::Next(
                XmlScan { i: i as int, stack: views(stack@), buf: buf@, out: views(out@) },
            ));
        } else {
            match markup_step(b, &nm, i, &mut stack, &mut buf, &mut out) {
                Some(next) => {
                    i = next;
                },
                None => {
                    assert(xml_run(bs, nm@, cur) == views(out@));
                    return strings_of(&out);
                },
            }
        }
    }
    strings_of(&out)
}


/// `spec_texts_named` of the UTF-8 encoding of `x`.
pub open spec fn texts_in(x: Seq<char>, name: Seq<char>) -> Seq<Seq<char>> {
    spec_texts_named(vstd::utf8::encode_utf8(x), name)
}

/// The first of `texts_in`, if there is one.
pub open spec fn first_in(x: Seq<char>, name: Seq<char>) -> Option<Seq<char>> {
    let t = texts_in(x, name);
    if t.len() > 0 {
        Some(t[0])
    } else {
        None
    }
}

/// The text of an optional string.
pub open spec fn opt_view(o: Option<String>) -> Option<Seq<char>> {
    match o {
        Some(s) => Some(s@),
        None => None,
    }
}

/// The first text `texts_named` finds.
pub fn first_text(xml: &str, name: &str) -> (r: Option<String>)
    ensures
        opt_view(r) == first_in(xml@, name@),
        r is None <==> spec_texts_named(xml.spec_bytes(), name@).len() == 0,
        r matches Some(t) ==> t@ == spec_texts_named(xml.spec_bytes(), name@)[0],
{
    let mut all = texts_named(xml, name);
    if all.len() == 0 {
        None
    } else {
        let ghost v = string_views(all@);
        assert(v[0] == all@[0]@);
        Some(all.remove(0))
    }
}

/// Whether a character ends a tag name in `contains_local`.
pub open spec fn name_delim(c: char) -> bool {
    c == '>' || c == ' ' || c == '/'
}

/// The characters before the first `>`, space or `/`.
pub open spec fn head_until_delim(s: Seq<char>) -> Seq<char>
    decreases s.len(),
{
    if s.len() == 0 || name_delim(s[0]) {
        Seq::empty()
    } else {
        seq![s[0]] + head_until_delim(s.drop_first())
    }
}

/// `xml` mentions an element with local name `name`: `<name`, `:name`, or
/// a piece after some `<` whose name (up to `>`, space or `/`) has local
/// part `name`.
pub open spec fn spec_contains_local(xml: Seq<char>, name: Seq<char>) -> bool {
    seq_contains(xml, "<"@ + name) || (exists|k: int|
        0 <= k < split(xml, '<').len() && #[trigger] after_last_colon(
            head_until_delim(split(xml, '<')[k]),
        ) == name) || seq_contains(xml, ":"@ + name)
}

proof fn lemma_head_until_delim(s: Seq<char>, j: int)
    requires
        0 <= j <= s.len(),
        forall|k: int| 0 <= k < j ==> !name_delim(#[trigger] s[k]),
        j < s.len() ==> name_delim(s[j]),
    ensures
        head_until_delim(s) == s.subrange(0, j),
    decreases j,
{
    if j > 0 {
        lemma_head_until_delim(s.drop_first(), j - 1);
        assert(seq![s[0]] + s.drop_first().subrange(0, j - 1) =~= s.subrange(0, j));
    } else {
        assert(s.subrange(0, 0) =~= Seq::<char>::empty());
    }
}

fn head_until_delim_chars(s: &[char]) -> (r: Vec<char>)
    ensures
        r@ == head_until_delim(s@),
{
    let mut r: Vec<char> = Vec::new();
    let mut j: usize = 0;
    while j < s.len() && !(s[j] == '>' || s[j] == ' ' || s[j] == '/')
        invariant
            j <= s@.len(),
            r@ == s@.subrange(0, j as int),
            forall|k: int| 0 <= k < j ==> !name_delim(#[trigger] s@[k]),
        decreases s@.len() - j,
    {
        r.push(s[j]);
        j = j + 1;
        assert(r@ =~= s@.subrange(0, j as int));
    }
    proof {
        lemma_head_until_delim(s@, j as int);
    }
    r
}

fn prefixed(c: char, name: &[char]) -> (r: Vec<char>)
    ensures
        r@ == seq![c] + name@,
{
    let mut r: Vec<char> = Vec::new();
    r.push(c);
    let mut k: usize = 0;
    while k < name.len()
        invariant
            k <= name@.len(),
            r@ == seq![c] + name@.subrange(0, k as int),
        decreases name@.len() - k,
    {
        r.push(name[k]);
        k = k + 1;
        assert(r@ =~= seq![c] + name@.subrange(0, k as int));
    }
    assert(name@.subrange(0, name@.len() as int) =~= name@);
    r
}

/// Whether `xml` mentions an element whose local name is `name`.
pub fn contains_local(xml: &str, name: &str) -> (r: bool)
    ensures
        r == spec_contains_local(xml@, name@),
{
    let x = chars_of(xml);
    let n = chars_of(name);
    let a = prefixed('<', n.as_slice());
    let b = prefixed(':', n.as_slice());
    proof {
        reveal_strlit("<");
        reveal_strlit(":");
        assert("<"@ + name@ =~= seq!['<'] + name@);
        assert(":"@ + name@ =~= seq![':'] + name@);
    }
    if contains_chars(x.as_slice(), a.as_slice()) {
        return true;
    }
    let pieces = split_chars(x.as_slice(), '<');
    let ghost ps = split(xml@, '<');
    let mut k: usize = 0;
    while k < pieces.len()
        invariant
            views(pieces@) == ps,
            ps == split(xml@, '<'),
            x@ == xml@,
            n@ == name@,
            k <= pieces@.len(),
            forall|j: int|
                0 <= j < k ==> #[trigger] after_last_colon(head_until_delim(ps[j])) != name@,
        decreases pieces@.len() - k,
    {
        let h = head_until_delim_chars(pieces[k].as_slice());
        let l = after_last_colon_chars(h.as_slice());
        assert(pieces@[k as int]@ == ps[k as int]);
        if chars_eq(l.as_slice(), n.as_slice()) {
            return true;
        }
        k = k + 1;
    }
    contains_chars(x.as_slice(), b.as_slice())
}

/// The value of `attr` (quoted with `"` first, else `'`) in a tag's text.
pub open spec fn spec_parse_attr(tag: Seq<char>, attr: Seq<char>) -> Option<Seq<char>> {
    match attr_with_quote(tag, attr, '"') {
        Some(v) => Some(v),
        None => attr_with_quote(tag, attr, '\''),
    }
}

/// The value of `attr=<q>...<q>` at the first `attr=<q>` in `tag`.
pub open spec fn attr_with_quote(tag: Seq<char>, attr: Seq<char>, q: char) -> Option<Seq<char>> {
    let key = attr + seq!['=', q];
    match find_from(tag, key, 0) {
        None => None,
        Some(idx) => {
            let rest = tag.skip(idx + key.len());
            match find_from(rest, seq![q], 0) {
                None => None,
                Some(end) => Some(rest.take(end)),
            }
        },
    }
}

#[verifier::spinoff_prover]
fn attr_with_quote_exec(tag: &[char], attr: &[char], q: char) -> (r: Option<Vec<char>>)
    ensures
        r matches Some(v) ==> attr_with_quote(tag@, attr@, q) == Some(v@),
        r is None ==> attr_with_quote(tag@, attr@, q) is None,
{
    let mut key: Vec<char> = Vec::new();
    key.extend_from_slice(attr);
    key.push('=');
    key.push(q);
    assert(key@ =~= attr@ + seq!['=', q]);
    let found = find_chars(tag, key.as_slice(), 0);
    proof {
        let g: Option<int> = match found {
            Some(i) => Some(i as int),
            None => None,
        };
        crate::text::lemma_find_from(tag@, key@, 0int, g);
    }
    match found {
        None => None,
        Some(idx) => {
            assert(crate::text::occurs_at(tag@, key@, idx as int));
            let tl = tag.len();
            let kl = key.len();
            assert(idx + kl <= tl);
            let start = idx + kl;
            let mut rest: Vec<char> = Vec::new();
            rest.extend_from_slice(&tag[start..tag.len()]);
            assert(rest@ =~= tag@.skip(start as int));
            let qs: [char; 1] = [q];
            assert(qs@ =~= seq![q]);
            let e = find_chars(rest.as_slice(), qs.as_slice(), 0);
            proof {
                let g: Option<int> = match e {
                    Some(i) => Some(i as int),
                    None => None,
                };
                crate::text::lemma_find_from(rest@, qs@, 0int, g);
            }
            match e {
                None => None,
                Some(end) => {
                    let mut v: Vec<char> = Vec::new();
                    v.extend_from_slice(&rest[0..end]);
                    assert(v@ =~= rest@.take(end as int));
                    Some(v)
                },
            }
        },
    }
}

/// The bytes `<`, `/`, `!`, `?`.
pub open spec fn skip_mark(c: u8) -> bool {
    c == 47u8 || c == 33u8 || c == 63u8
}

/// Scan from `i` for the first element whose local name is `element` and
/// read `attr` from its tag.
pub open spec fn attr_scan(b: Seq<u8>, element: Seq<char>, attr: Seq<char>, i: int) -> Option<
    Seq<char>,
>
    decreases b.len() - i,
{
    if i < 0 || i >= b.len() {
        None
    } else if b[i] != 60u8 {
        attr_scan(b, element, attr, i + 1)
    } else if i + 1 >= b.len() {
        None
    } else if skip_mark(b[i + 1]) {
        attr_scan(b, element, attr, i + 1)
    } else {
        match find_from(b, gt(), i + 1) {
            None => None,
            Some(end) => {
                let tag = tag_text(b.subrange(i + 1, end));
                if after_last_colon(first_token(trim_end_slashes(tag))) == element {
                    spec_parse_attr(tag, attr)
                } else if end + 1 > i {
                    attr_scan(b, element, attr, end + 1)
                } else {
                    None
                }
            },
        }
    }
}

/// Attribute value `attr="..."` or `attr='...'` on the first element whose
/// local name is `element`.
#[verifier::spinoff_prover]
pub fn attr_on(xml: &str, element: &str, attr: &str) -> (r: Option<String>)
    ensures
        r matches Some(v) ==> attr_scan(xml.spec_bytes(), element@, attr@, 0) == Some(v@),
        r is None ==> attr_scan(xml.spec_bytes(), element@, attr@, 0) is None,
{
    let b = xml.as_bytes();
    let el = chars_of(element);
    let at = chars_of(attr);
    let ghost bs = b@;
    let mut i: usize = 0;
    while i < b.len()
        invariant
            bs == b@,
            bs == xml.spec_bytes(),
            el@ == element@,
            at@ == attr@,
            i <= bs.len(),
            attr_scan(bs, el@, at@, i as int) == attr_scan(bs, el@, at@, 0),
        decreases bs.len() - i,
    {
        if b[i] != 60u8 {
            i = i + 1;
        } else {
            let start = i + 1;
            if start >= b.len() {
                return None;
            }
            let c = b[start];
            if c == 47u8 || c == 33u8 || c == 63u8 {
                i = i + 1;
            } else {
                let g: [u8; 1] = [62u8];
                assert(g@ == gt());
                let found = find_bytes_spec(b, g.as_slice(), start);
                proof {
                    lemma_find_from_ge(bs, gt(), start as int);
                }
                match found {
                    None => {
                        return None;
                    },
                    Some(end) => {
                        let tb = copy_bytes(b, start, end);
                        let t = match crate::text::utf8_chars(tb.as_slice()) {
                            Some(v) => v,
                            None => Vec::new(),
                        };
                        assert(t@ == tag_text(bs.subrange(start as int, end as int)));
                        let trimmed = trim_end_slashes_chars(t.as_slice());
                        let tok = first_token_chars(trimmed.as_slice());
                        let ln = after_last_colon_chars(tok.as_slice());
                        if chars_eq(ln.as_slice(), el.as_slice()) {
                            let r = match attr_with_quote_exec(t.as_slice(), at.as_slice(), '"') {
                                Some(v) => Some(v),
                                None => attr_with_quote_exec(t.as_slice(), at.as_slice(), '\''),
                            };
                            return match r {
                                Some(v) => Some(string_from_chars(v.as_slice())),
                                None => None,
                            };
                        }
                        i = end + 1;
                    },
                }
            }
        }
    }
    None
}

} // verus!
