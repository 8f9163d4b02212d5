//! Escaping of free text inside markup elements, and the way back.
use vstd::prelude::*;

verus! {

pub open spec fn lt_entity() -> Seq<char> {
    seq!['&', 'l', 't', ';']
}

pub open spec fn gt_entity() -> Seq<char> {
    seq!['&', 'g', 't', ';']
}

pub open spec fn amp_entity() -> Seq<char> {
    seq!['&', 'a', 'm', 'p', ';']
}

/// What a character of element text becomes once escaped.
pub open spec fn escaped_char(c: char) -> Seq<char> {
    if c == '<' {
        lt_entity()
    } else if c == '>' {
        gt_entity()
    } else if c == '&' {
        amp_entity()
    } else {
        seq![c]
    }
}

/// Element text with `<`, `>` and `&` replaced by their entities.
pub open spec fn escape_pcdata(s: Seq<char>) -> Seq<char>
    decreases s.len(),
{
    if s.len() == 0 {
        Seq::empty()
    } else {
        escaped_char(s[0]) + escape_pcdata(s.skip(1))
    }
}

/// Element text with the entities for `<`, `>` and `&` read back as characters.
pub open spec fn unescape_pcdata(t: Seq<char>) -> Seq<char>
    decreases t.len(),
{
    if t.len() == 0 {
        Seq::empty()
    } else if t.len() >= 4 && t.subrange(0, 4) == lt_entity() {
        seq!['<'] + unescape_pcdata(t.skip(4))
    } else if t.len() >= 4 && t.subrange(0, 4) == gt_entity() {
        seq!['>'] + unescape_pcdata(t.skip(4))
    } else if t.len() >= 5 && t.subrange(0, 5) == amp_entity() {
        seq!['&'] + unescape_pcdata(t.skip(5))
    } else {
        seq![t[0]] + unescape_pcdata(t.skip(1))
    }
}

/// Relies on xml::escape::escape_str_pcdata: each `<`, `>` and `&` is replaced by
/// `&lt;`, `&gt;` and `&amp;`, every other character is kept.
#[verifier::external_body]
fn escape_str_pcdata(s: &str) -> (r: String)
    ensures
        r@ == escape_pcdata(s@),
{
    xml::escape::escape_str_pcdata(s).into_owned()
}

/// Escapes `s` for use as the text of a markup element.
pub fn escape_text(s: &str) -> (r: String)
    ensures
        r@ == escape_pcdata(s@),
{
    escape_str_pcdata(s)
}

/// Escaped text holds no `<`.
pub proof fn lemma_escape_has_no_lt(s: Seq<char>)
    ensures
        forall|i: int| 0 <= i < escape_pcdata(s).len() ==> escape_pcdata(s)[i] != '<',
    decreases s.len(),
{
    if s.len() > 0 {
        lemma_escape_has_no_lt(s.skip(1));
        let e = escaped_char(s[0]);
        let rest = escape_pcdata(s.skip(1));
        assert forall|i: int| 0 <= i < escape_pcdata(s).len() implies escape_pcdata(s)[i]
            != '<' by {
            if i >= e.len() {
                assert(escape_pcdata(s)[i] == rest[i - e.len()]);
            }
        }
    }
}

/// Reading escaped text back gives the text that was escaped.
pub proof fn lemma_unescape_escape(s: Seq<char>)
    ensures
        unescape_pcdata(escape_pcdata(s)) == s,
    decreases s.len(),
{
    if s.len() > 0 {
        lemma_unescape_escape(s.skip(1));
        let c = s[0];
        let rest = escape_pcdata(s.skip(1));
        let t = escape_pcdata(s);
        assert(t == escaped_char(c) + rest);
        let e = escaped_char(c);
        assert(t.skip(e.len() as int) =~= rest);
        assert(t.subrange(0, e.len() as int) =~= e);
        if c == '<' || c == '>' {
            assert(t.subrange(0, 4) =~= e);
        } else if c == '&' {
            assert(t.subrange(0, 5) =~= e);
            assert(t.subrange(0, 4) != lt_entity()) by {
                assert(t.subrange(0, 4)[1] == 'a');
            }
            assert(t.subrange(0, 4) != gt_entity()) by {
                assert(t.subrange(0, 4)[1] == 'a');
            }
        } else {
            assert(t[0] == c);
            if t.len() >= 4 {
                assert(t.subrange(0, 4)[0] == c);
            }
            if t.len() >= 5 {
                assert(t.subrange(0, 5)[0] == c);
            }
        }
        assert(s =~= seq![c] + s.skip(1));
    }
}

/// Whether `lit` stands in `s` at character position `at`.
pub fn matches_at(s: &str, at: usize, lit: &str) -> (r: bool)
    ensures
        r == (at + lit@.len() <= s@.len() && s@.subrange(at as int, at + lit@.len()) == lit@),
{
    let n = s.unicode_len();
    let m = lit.unicode_len();
    if at > n || m > n - at {
        return false;
    }
    let mut i: usize = 0;
    while i < m
        invariant
            n == s@.len(),
            m == lit@.len(),
            at + m <= n,
            i <= m,
            forall|j: int| 0 <= j < i ==> s@[at + j] == lit@[j],
        decreases m - i,
    {
        if s.get_char(at + i) != lit.get_char(i) {
            assert(s@.subrange(at as int, at + m)[i as int] != lit@[i as int]);
            return false;
        }
        i = i + 1;
    }
    assert(s@.subrange(at as int, at + m) =~= lit@);
    true
}

/// The first position at or after `from` that holds `<`, or the end of `s`.
pub fn find_lt(s: &str, from: usize) -> (r: usize)
    requires
        from <= s@.len(),
    ensures
        from <= r <= s@.len(),
        forall|j: int| from <= j < r ==> s@[j] != '<',
        r < s@.len() ==> s@[r as int] == '<',
{
    let n = s.unicode_len();
    let mut i = from;
    while i < n
        invariant
            n == s@.len(),
            from <= i <= n,
            forall|j: int| from <= j < i ==> s@[j] != '<',
        decreases n - i,
    {
        if s.get_char(i) == '<' {
            return i;
        }
        i = i + 1;
    }
    i
}

/// Reads back the escaped text that stands in `s` from `from` to `to`.
pub fn unescape_range(s: &str, from: usize, to: usize) -> (r: String)
    requires
        from <= to <= s@.len(),
    ensures
        r@ == unescape_pcdata(s@.subrange(from as int, to as int)),
{
    let lt = "&lt;";
    let gt = "&gt;";
    let amp = "&amp;";
    let lt_c = "<";
    let gt_c = ">";
    let amp_c = "&";
    proof {
        reveal_strlit("&lt;");
        reveal_strlit("&gt;");
        reveal_strlit("&amp;");
        reveal_strlit("<");
        reveal_strlit(">");
        reveal_strlit("&");
        assert(lt@ =~= lt_entity());
        assert(gt@ =~= gt_entity());
        assert(amp@ =~= amp_entity());
        assert(lt_c@ =~= seq!['<']);
        assert(gt_c@ =~= seq!['>']);
        assert(amp_c@ =~= seq!['&']);
    }
    let mut out = String::new();
    let mut i = from;
    while i < to
        invariant
            from <= i <= to <= s@.len(),
            lt@ == lt_entity(),
            gt@ == gt_entity(),
            amp@ == amp_entity(),
            lt_c@ == seq!['<'],
            gt_c@ == seq!['>'],
            amp_c@ == seq!['&'],
            unescape_pcdata(s@.subrange(from as int, to as int)) == out@ + unescape_pcdata(
                s@.subrange(i as int, to as int),
            ),
        decreases to - i,
    {
        let ghost t = s@.subrange(i as int, to as int);
        let ghost before = out@;
        if to - i >= 4 && matches_at(s, i, lt) {
            assert(t.subrange(0, 4) =~= s@.subrange(i as int, i + 4));
            assert(t.skip(4) =~= s@.subrange(i + 4, to as int));
            assert(t.subrange(0, 4) == lt_entity());
            out.append(lt_c);
            assert(out@ + unescape_pcdata(t.skip(4)) =~= before + unescape_pcdata(t));
            i = i + 4;
        } else if to - i >= 4 && matches_at(s, i, gt) {
            assert(t.subrange(0, 4) =~= s@.subrange(i as int, i + 4));
            assert(t.skip(4) =~= s@.subrange(i + 4, to as int));
            assert(t.subrange(0, 4) == gt_entity());
            out.append(gt_c);
            assert(out@ + unescape_pcdata(t.skip(4)) =~= before + unescape_pcdata(t));
            i = i + 4;
        } else if to - i >= 5 && matches_at(s, i, amp) {
            assert(t.subrange(0, 5) =~= s@.subrange(i as int, i + 5));
            assert(t.subrange(0, 4) =~= s@.subrange(i as int, i + 4));
            assert(t.skip(5) =~= s@.subrange(i + 5, to as int));
            assert(t.subrange(0, 5) == amp_entity());
            out.append(amp_c);
            assert(out@ + unescape_pcdata(t.skip(5)) =~= before + unescape_pcdata(t));
            i = i + 5;
        } else {
            proof {
                if t.len() >= 4 {
                    assert(t.subrange(0, 4) =~= s@.subrange(i as int, i + 4));
                }
                if t.len() >= 5 {
                    assert(t.subrange(0, 5) =~= s@.subrange(i as int, i + 5));
                }
                assert(t.skip(1) =~= s@.subrange(i + 1, to as int));
            }
            let one = s.substring_char(i, i + 1);
            assert(one@ =~= seq![t[0]]);
            out.append(one);
            assert(out@ + unescape_pcdata(t.skip(1)) =~= before + unescape_pcdata(t));
            i = i + 1;
        }
    }
    assert(s@.subrange(to as int, to as int) =~= Seq::<char>::empty());
    assert(out@ + Seq::<char>::empty() =~= out@);
    out
}

/// What a character of an attribute value becomes once escaped.
pub open spec fn escaped_attr_char(c: char) -> Seq<char> {
    if c == '<' {
        lt_entity()
    } else if c == '>' {
        gt_entity()
    } else if c == '"' {
        seq!['&', 'q', 'u', 'o', 't', ';']
    } else if c == '\'' {
        seq!['&', 'a', 'p', 'o', 's', ';']
    } else if c == '&' {
        amp_entity()
    } else if c == '\n' {
        seq!['&', '#', 'x', 'A', ';']
    } else if c == '\r' {
        seq!['&', '#', 'x', 'D', ';']
    } else {
        seq![c]
    }
}

/// An attribute value with markup characters and line breaks replaced by entities.
pub open spec fn escape_attribute(s: Seq<char>) -> Seq<char>
    decreases s.len(),
{
    if s.len() == 0 {
        Seq::empty()
    } else {
        escaped_attr_char(s[0]) + escape_attribute(s.skip(1))
    }
}

/// Relies on xml::escape::escape_str_attribute: each of `<`, `>`, `"`, `'`, `&`,
/// line feed and carriage return is replaced by its entity, every other character
/// is kept.
#[verifier::external_body]
fn escape_str_attribute(s: &str) -> (r: String)
    ensures
        r@ == escape_attribute(s@),
{
    xml::escape::escape_str_attribute(s).into_owned()
}

/// Escapes `s` for use as the value of a markup attribute.
pub fn escape_attr(s: &str) -> (r: String)
    ensures
        r@ == escape_attribute(s@),
{
    escape_str_attribute(s)
}

/// Whether a character may stand in a markup document.
pub open spec fn markup_char(c: char) -> bool {
    c == '\t' || c == '\n' || c == '\r' || (c as u32 >= 32 && c as u32 != 65534 && c as u32
        != 65535)
}

/// Whether every character of `s` may stand in a markup document.
pub open spec fn markup_text(s: Seq<char>) -> bool {
    forall|i: int| 0 <= i < s.len() ==> markup_char(#[trigger] s[i])
}

/// Checks that every character of `s` may stand in a markup document.
pub fn is_markup_text(s: &str) -> (r: bool)
    ensures
        r == markup_text(s@),
{
    let n = s.unicode_len();
    let mut i: usize = 0;
    while i < n
        invariant
            n == s@.len(),
            i <= n,
            forall|j: int| 0 <= j < i ==> markup_char(#[trigger] s@[j]),
        decreases n - i,
    {
        let c = s.get_char(i);
        let ok = c == '\t' || c == '\n' || c == '\r' || (c as u32 >= 32 && c as u32 != 65534
            && c as u32 != 65535);
        if !ok {
            return false;
        }
        i = i + 1;
    }
    true
}

/// Reads one field of escaped text that starts at `from` and is closed by `close`,
/// which starts with `<`. Gives the text read back and the position after `close`.
pub fn read_field(s: &str, from: usize, close: &str) -> (r: Option<(String, usize)>)
    requires
        from <= s@.len(),
        close@.len() > 0,
        close@[0] == '<',
    ensures
        r is Some ==> from + close@.len() <= r.unwrap().1 <= s@.len(),
        forall|x: Seq<char>|
            {
                let e = #[trigger] escape_pcdata(x);
                &&& from + e.len() + close@.len() <= s@.len()
                &&& s@.subrange(from as int, from + e.len()) == e
                &&& s@.subrange(from + e.len(), from + e.len() + close@.len()) == close@
            } ==> {
                &&& r is Some
                &&& r.unwrap().0@ == x
                &&& r.unwrap().1 == from + escape_pcdata(x).len() + close@.len()
            },
{
    let end = find_lt(s, from);
    let _n = s.unicode_len();
    if !matches_at(s, end, close) {
        proof {
            assert forall|x: Seq<char>|
                {
                    let e = #[trigger] escape_pcdata(x);
                    &&& from + e.len() + close@.len() <= s@.len()
                    &&& s@.subrange(from as int, from + e.len()) == e
                    &&& s@.subrange(from + e.len(), from + e.len() + close@.len()) == close@
                } implies false by {
                lemma_field_end(s@, from as int, end as int, x, close@);
            }
        }
        return None;
    }
    let text = unescape_range(s, from, end);
    proof {
        assert forall|x: Seq<char>|
            {
                let e = #[trigger] escape_pcdata(x);
                &&& from + e.len() + close@.len() <= s@.len()
                &&& s@.subrange(from as int, from + e.len()) == e
                &&& s@.subrange(from + e.len(), from + e.len() + close@.len()) == close@
            } implies text@ == x && end + close@.len() == from + escape_pcdata(x).len()
            + close@.len() by {
            lemma_field_end(s@, from as int, end as int, x, close@);
            lemma_unescape_escape(x);
        }
    }
    Some((text, end + close.unicode_len()))
}

proof fn lemma_field_end(s: Seq<char>, from: int, end: int, x: Seq<char>, close: Seq<char>)
    requires
        0 <= from <= end <= s.len(),
        forall|j: int| from <= j < end ==> s[j] != '<',
        end < s.len() ==> s[end] == '<',
        close.len() > 0,
        close[0] == '<',
        from + escape_pcdata(x).len() + close.len() <= s.len(),
        s.subrange(from, from + escape_pcdata(x).len()) == escape_pcdata(x),
        s.subrange(from + escape_pcdata(x).len(), from + escape_pcdata(x).len() + close.len())
            == close,
    ensures
        end == from + escape_pcdata(x).len(),
        s.subrange(from, end) == escape_pcdata(x),
        s.subrange(end, end + close.len()) == close,
{
    let e = escape_pcdata(x);
    lemma_escape_has_no_lt(x);
    let k = from + e.len();
    assert(s[k] == close[0]) by {
        assert(s.subrange(k, k + close.len())[0] == s[k]);
    }
    if end < k {
        assert(s.subrange(from, k)[end - from] == s[end]);
    }
    if end > k {
        assert(s[k] != '<');
    }
}

pub open spec fn quot_entity() -> Seq<char> {
    seq!['&', 'q', 'u', 'o', 't', ';']
}

pub open spec fn apos_entity() -> Seq<char> {
    seq!['&', 'a', 'p', 'o', 's', ';']
}

pub open spec fn lf_entity() -> Seq<char> {
    seq!['&', '#', 'x', 'A', ';']
}

pub open spec fn cr_entity() -> Seq<char> {
    seq!['&', '#', 'x', 'D', ';']
}

/// Whether `t` begins with `e`.
pub open spec fn begins_with(t: Seq<char>, e: Seq<char>) -> bool {
    t.len() >= e.len() && t.subrange(0, e.len() as int) == e
}

/// An attribute value with the entities that attribute escaping writes read back
/// as characters.
pub open spec fn unescape_attribute(t: Seq<char>) -> Seq<char>
    decreases t.len(),
{
    if t.len() == 0 {
        Seq::empty()
    } else if begins_with(t, lt_entity()) {
        seq!['<'] + unescape_attribute(t.skip(4))
    } else if begins_with(t, gt_entity()) {
        seq!['>'] + unescape_attribute(t.skip(4))
    } else if begins_with(t, quot_entity()) {
        seq!['"'] + unescape_attribute(t.skip(6))
    } else if begins_with(t, apos_entity()) {
        seq!['\''] + unescape_attribute(t.skip(6))
    } else if begins_with(t, amp_entity()) {
        seq!['&'] + unescape_attribute(t.skip(5))
    } else if begins_with(t, lf_entity()) {
        seq!['\n'] + unescape_attribute(t.skip(5))
    } else if begins_with(t, cr_entity()) {
        seq!['\r'] + unescape_attribute(t.skip(5))
    } else {
        seq![t[0]] + unescape_attribute(t.skip(1))
    }
}

/// An escaped attribute value holds no `"`.
pub proof fn lemma_escape_attribute_has_no_quote(s: Seq<char>)
    ensures
        forall|i: int|
            0 <= i < escape_attribute(s).len() ==> escape_attribute(s)[i] != '"',
    decreases s.len(),
{
    if s.len() > 0 {
        lemma_escape_attribute_has_no_quote(s.skip(1));
        let e = escaped_attr_char(s[0]);
        let rest = escape_attribute(s.skip(1));
        assert forall|i: int| 0 <= i < escape_attribute(s).len() implies escape_attribute(s)[i]
            != '"' by {
            if i >= e.len() {
                assert(escape_attribute(s)[i] == rest[i - e.len()]);
            }
        }
    }
}

/// Reading an escaped attribute value back gives the value that was escaped.
pub proof fn lemma_unescape_escape_attribute(s: Seq<char>)
    ensures
        unescape_attribute(escape_attribute(s)) == s,
    decreases s.len(),
{
    if s.len() > 0 {
        lemma_unescape_escape_attribute(s.skip(1));
        let c = s[0];
        let rest = escape_attribute(s.skip(1));
        let t = escape_attribute(s);
        let e = escaped_attr_char(c);
        assert(t == e + rest);
        assert(t.skip(e.len() as int) =~= rest);
        assert(t.subrange(0, e.len() as int) =~= e);
        assert(t[0] == e[0]);
        if t.len() >= 4 {
            assert(t.subrange(0, 4)[1] == t[1]);
            assert(t.subrange(0, 4)[0] == t[0]);
        }
        if t.len() >= 5 {
            assert(t.subrange(0, 5)[1] == t[1]);
            assert(t.subrange(0, 5)[3] == t[3]);
            assert(t.subrange(0, 5)[0] == t[0]);
        }
        if t.len() >= 6 {
            assert(t.subrange(0, 6)[1] == t[1]);
            assert(t.subrange(0, 6)[0] == t[0]);
        }
        if e.len() > 1 {
            assert(t[1] == e[1]);
        }
        if e.len() > 3 {
            assert(t[3] == e[3]);
        }
        assert(s =~= seq![c] + s.skip(1));
    }
}

/// The first position at or after `from` that holds `"`, or the end of `s`.
pub fn find_quote(s: &str, from: usize) -> (r: usize)
    requires
        from <= s@.len(),
    ensures
        from <= r <= s@.len(),
        forall|j: int| from <= j < r ==> s@[j] != '"',
        r < s@.len() ==> s@[r as int] == '"',
{
    let n = s.unicode_len();
    let mut i = from;
    while i < n
        invariant
            n == s@.len(),
            from <= i <= n,
            forall|j: int| from <= j < i ==> s@[j] != '"',
        decreases n - i,
    {
        if s.get_char(i) == '"' {
            return i;
        }
        i = i + 1;
    }
    i
}

/// Reads back the escaped attribute value that stands in `s` from `from` to `to`.
pub fn unescape_attr_range(s: &str, from: usize, to: usize) -> (r: String)
    requires
        from <= to <= s@.len(),
    ensures
        r@ == unescape_attribute(s@.subrange(from as int, to as int)),
{
    let e_lt = "&lt;";
    let c_lt = "<";
    let e_gt = "&gt;";
    let c_gt = ">";
    let e_quot = "&quot;";
    let c_quot = "\"";
    let e_apos = "&apos;";
    let c_apos = "'";
    let e_amp = "&amp;";
    let c_amp = "&";
    let e_lf = "&#xA;";
    let c_lf = "\n";
    let e_cr = "&#xD;";
    let c_cr = "\r";
    proof {
        reveal_strlit("&lt;");
        reveal_strlit("<");
        reveal_strlit("&gt;");
        reveal_strlit(">");
        reveal_strlit("&quot;");
        reveal_strlit("\"");
        reveal_strlit("&apos;");
        reveal_strlit("'");
        reveal_strlit("&amp;");
        reveal_strlit("&");
        reveal_strlit("&#xA;");
        reveal_strlit("\n");
        reveal_strlit("&#xD;");
        reveal_strlit("\r");
        assert(e_lt@ =~= lt_entity());
        assert(c_lt@ =~= seq!['<']);
        assert(e_gt@ =~= gt_entity());
        assert(c_gt@ =~= seq!['>']);
        assert(e_quot@ =~= quot_entity());
        assert(c_quot@ =~= seq!['"']);
        assert(e_apos@ =~= apos_entity());
        assert(c_apos@ =~= seq!['\'']);
        assert(e_amp@ =~= amp_entity());
        assert(c_amp@ =~= seq!['&']);
        assert(e_lf@ =~= lf_entity());
        assert(c_lf@ =~= seq!['\n']);
        assert(e_cr@ =~= cr_entity());
        assert(c_cr@ =~= seq!['\r']);
    }
    let mut out = String::new();
    let mut i = from;
    while i < to
        invariant
            from <= i <= to <= s@.len(),
            e_lt@ == lt_entity(),
            c_lt@ == seq!['<'],
            e_gt@ == gt_entity(),
            c_gt@ == seq!['>'],
            e_quot@ == quot_entity(),
            c_quot@ == seq!['"'],
            e_apos@ == apos_entity(),
            c_apos@ == seq!['\''],
            e_amp@ == amp_entity(),
            c_amp@ == seq!['&'],
            e_lf@ == lf_entity(),
            c_lf@ == seq!['\n'],
            e_cr@ == cr_entity(),
            c_cr@ == seq!['\r'],
            unescape_attribute(s@.subrange(from as int, to as int)) == out@ + unescape_attribute(
                s@.subrange(i as int, to as int),
            ),
        decreases to - i,
    {
        let ghost t = s@.subrange(i as int, to as int);
        let ghost before = out@;
        proof {
            if t.len() >= 4 {
                assert(t.subrange(0, 4) =~= s@.subrange(i as int, i + 4));
            }
            if t.len() >= 5 {
                assert(t.subrange(0, 5) =~= s@.subrange(i as int, i + 5));
            }
            if t.len() >= 6 {
                assert(t.subrange(0, 6) =~= s@.subrange(i as int, i + 6));
            }
        }
        if to - i >= 4 && matches_at(s, i, e_lt) {
            assert(t.subrange(0, 4) =~= s@.subrange(i as int, i + 4));
            assert(t.skip(4) =~= s@.subrange(i + 4, to as int));
            assert(begins_with(t, lt_entity()));
            out.append(c_lt);
            assert(out@ + unescape_attribute(t.skip(4)) =~= before + unescape_attribute(t));
            i = i + 4;
        } else if to - i >= 4 && matches_at(s, i, e_gt) {
            assert(t.subrange(0, 4) =~= s@.subrange(i as int, i + 4));
            assert(t.skip(4) =~= s@.subrange(i + 4, to as int));
            assert(begins_with(t, gt_entity()));
            out.append(c_gt);
            assert(out@ + unescape_attribute(t.skip(4)) =~= before + unescape_attribute(t));
            i = i + 4;
        } else if to - i >= 6 && matches_at(s, i, e_quot) {
            assert(t.subrange(0, 6) =~= s@.subrange(i as int, i + 6));
            assert(t.skip(6) =~= s@.subrange(i + 6, to as int));
            assert(begins_with(t, quot_entity()));
            out.append(c_quot);
            assert(out@ + unescape_attribute(t.skip(6)) =~= before + unescape_attribute(t));
            i = i + 6;
        } else if to - i >= 6 && matches_at(s, i, e_apos) {
            assert(t.subrange(0, 6) =~= s@.subrange(i as int, i + 6));
            assert(t.skip(6) =~= s@.subrange(i + 6, to as int));
            assert(begins_with(t, apos_entity()));
            out.append(c_apos);
            assert(out@ + unescape_attribute(t.skip(6)) =~= before + unescape_attribute(t));
            i = i + 6;
        } else if to - i >= 5 && matches_at(s, i, e_amp) {
            assert(t.subrange(0, 5) =~= s@.subrange(i as int, i + 5));
            assert(t.skip(5) =~= s@.subrange(i + 5, to as int));
            assert(begins_with(t, amp_entity()));
            out.append(c_amp);
            assert(out@ + unescape_attribute(t.skip(5)) =~= before + unescape_attribute(t));
            i = i + 5;
        } else if to - i >= 5 && matches_at(s, i, e_lf) {
            assert(t.subrange(0, 5) =~= s@.subrange(i as int, i + 5));
            assert(t.skip(5) =~= s@.subrange(i + 5, to as int));
            assert(begins_with(t, lf_entity()));
            out.append(c_lf);
            assert(out@ + unescape_attribute(t.skip(5)) =~= before + unescape_attribute(t));
            i = i + 5;
        } else if to - i >= 5 && matches_at(s, i, e_cr) {
            assert(t.subrange(0, 5) =~= s@.subrange(i as int, i + 5));
            assert(t.skip(5) =~= s@.subrange(i + 5, to as int));
            assert(begins_with(t, cr_entity()));
            out.append(c_cr);
            assert(out@ + unescape_attribute(t.skip(5)) =~= before + unescape_attribute(t));
            i = i + 5;
        } else {
            assert(t.skip(1) =~= s@.subrange(i + 1, to as int));
            let one = s.substring_char(i, i + 1);
            assert(one@ =~= seq![t[0]]);
            out.append(one);
            assert(out@ + unescape_attribute(t.skip(1)) =~= before + unescape_attribute(t));
            i = i + 1;
        }
    }
    assert(s@.subrange(to as int, to as int) =~= Seq::<char>::empty());
    assert(out@ + Seq::<char>::empty() =~= out@);
    out
}

/// Reads one escaped attribute value that starts at `from` and is closed by
/// `close`, which starts with `"`. Gives the text read back and the position after `close`.
pub fn read_attr(s: &str, from: usize, close: &str) -> (r: Option<(String, usize)>)
    requires
        from <= s@.len(),
        close@.len() > 0,
        close@[0] == '"',
    ensures
        r is Some ==> from + close@.len() <= r.unwrap().1 <= s@.len(),
        forall|x: Seq<char>|
            {
                let e = #[trigger] escape_attribute(x);
                &&& from + e.len() + close@.len() <= s@.len()
                &&& s@.subrange(from as int, from + e.len()) == e
                &&& s@.subrange(from + e.len(), from + e.len() + close@.len()) == close@
            } ==> {
                &&& r is Some
                &&& r.unwrap().0@ == x
                &&& r.unwrap().1 == from + escape_attribute(x).len() + close@.len()
            },
{
    let end = find_quote(s, from);
    let _n = s.unicode_len();
    if !matches_at(s, end, close) {
        proof {
            assert forall|x: Seq<char>|
                {
                    let e = #[trigger] escape_attribute(x);
                    &&& from + e.len() + close@.len() <= s@.len()
                    &&& s@.subrange(from as int, from + e.len()) == e
                    &&& s@.subrange(from + e.len(), from + e.len() + close@.len()) == close@
                } implies false by {
                lemma_attr_end(s@, from as int, end as int, x, close@);
            }
        }
        return None;
    }
    let text = unescape_attr_range(s, from, end);
    proof {
        assert forall|x: Seq<char>|
            {
                let e = #[trigger] escape_attribute(x);
                &&& from + e.len() + close@.len() <= s@.len()
                &&& s@.subrange(from as int, from + e.len()) == e
                &&& s@.subrange(from + e.len(), from + e.len() + close@.len()) == close@
            } implies text@ == x && end + close@.len() == from + escape_attribute(x).len()
            + close@.len() by {
            lemma_attr_end(s@, from as int, end as int, x, close@);
            lemma_unescape_escape_attribute(x);
        }
    }
    Some((text, end + close.unicode_len()))
}

proof fn lemma_attr_end(s: Seq<char>, from: int, end: int, x: Seq<char>, close: Seq<char>)
    requires
        0 <= from <= end <= s.len(),
        forall|j: int| from <= j < end ==> s[j] != '"',
        end < s.len() ==> s[end] == '"',
        close.len() > 0,
        close[0] == '"',
        from + escape_attribute(x).len() + close.len() <= s.len(),
        s.subrange(from, from + escape_attribute(x).len()) == escape_attribute(x),
        s.subrange(from + escape_attribute(x).len(), from + escape_attribute(x).len() + close.len())
            == close,
    ensures
        end == from + escape_attribute(x).len(),
        s.subrange(from, end) == escape_attribute(x),
        s.subrange(end, end + close.len()) == close,
{
    let e = escape_attribute(x);
    lemma_escape_attribute_has_no_quote(x);
    let k = from + e.len();
    assert(s[k] == close[0]) by {
        assert(s.subrange(k, k + close.len())[0] == s[k]);
    }
    if end < k {
        assert(s.subrange(from, k)[end - from] == s[end]);
    }
    if end > k {
        assert(s[k] != '"');
    }
}

/// Text escaped for an element and closed by a tag stands in one way only: two
/// texts that both fit at the same place are equal.
pub proof fn lemma_field_unique(s: Seq<char>, from: int, x: Seq<char>, y: Seq<char>, close: Seq<char>)
    requires
        0 <= from,
        close.len() > 0,
        close[0] == '<',
        from + escape_pcdata(x).len() + close.len() <= s.len(),
        s.subrange(from, from + escape_pcdata(x).len()) == escape_pcdata(x),
        s.subrange(from + escape_pcdata(x).len(), from + escape_pcdata(x).len() + close.len())
            == close,
        from + escape_pcdata(y).len() + close.len() <= s.len(),
        s.subrange(from, from + escape_pcdata(y).len()) == escape_pcdata(y),
        s.subrange(from + escape_pcdata(y).len(), from + escape_pcdata(y).len() + close.len())
            == close,
    ensures
        x == y,
{
    let ex = escape_pcdata(x);
    let end = from + ex.len();
    lemma_escape_has_no_lt(x);
    assert forall|j: int| from <= j < end implies s[j] != '<' by {
        assert(s.subrange(from, end)[j - from] == s[j]);
    }
    assert(s[end] == '<') by {
        assert(s.subrange(end, end + close.len())[0] == s[end]);
    }
    lemma_field_end(s, from, end, y, close);
    lemma_unescape_escape(x);
    lemma_unescape_escape(y);
}

/// An escaped attribute value closed by a quote stands in one way only: two
/// values that both fit at the same place are equal.
pub proof fn lemma_attr_unique(s: Seq<char>, from: int, x: Seq<char>, y: Seq<char>, close: Seq<char>)
    requires
        0 <= from,
        close.len() > 0,
        close[0] == '"',
        from + escape_attribute(x).len() + close.len() <= s.len(),
        s.subrange(from, from + escape_attribute(x).len()) == escape_attribute(x),
        s.subrange(
            from + escape_attribute(x).len(),
            from + escape_attribute(x).len() + close.len(),
        ) == close,
        from + escape_attribute(y).len() + close.len() <= s.len(),
        s.subrange(from, from + escape_attribute(y).len()) == escape_attribute(y),
        s.subrange(
            from + escape_attribute(y).len(),
            from + escape_attribute(y).len() + close.len(),
        ) == close,
    ensures
        x == y,
{
    let ex = escape_attribute(x);
    let end = from + ex.len();
    lemma_escape_attribute_has_no_quote(x);
    assert forall|j: int| from <= j < end implies s[j] != '"' by {
        assert(s.subrange(from, end)[j - from] == s[j]);
    }
    assert(s[end] == '"') by {
        assert(s.subrange(end, end + close.len())[0] == s[end]);
    }
    lemma_attr_end(s, from, end, y, close);
    lemma_unescape_escape_attribute(x);
    lemma_unescape_escape_attribute(y);
}

} // verus!
