//! Character-level text operations: HTML escaping, trailing-slash trimming
//! and literal token replacement.
use vstd::prelude::*;
use vstd::string::StringExecFns;

verus! {

/// Relies on `String::push`: the character is appended at the end.
#[verifier::external_body]
pub(crate) fn push_char(s: &mut String, c: char)
    ensures
        final(s)@ == old(s)@.push(c),
{
    s.push(c)
}

/// Appends `t` to `s`.
pub(crate) fn push_text(s: &mut String, t: &str)
    ensures
        final(s)@ == old(s)@ + t@,
{
    s.append(t);
}

/// The characters of `s`, in order.
pub fn chars_of(s: &str) -> (r: Vec<char>)
    ensures
        r@ == s@,
{
    let mut out: Vec<char> = Vec::new();
    for c in it: s.chars()
        invariant
            it.seq() == s@,
            out@ == it.seq().subrange(0, it.index() as int),
    {
        out.push(c);
    }
    out
}

/// The entity that stands for `c` in HTML text, or `c` itself.
pub open spec fn escape_char(c: char) -> Seq<char> {
    if c == '&' {
        "&amp;"@
    } else if c == '<' {
        "&lt;"@
    } else if c == '>' {
        "&gt;"@
    } else if c == '"' {
        "&quot;"@
    } else if c == '\'' {
        "&#x27;"@
    } else {
        seq![c]
    }
}

/// `s` with each of `& < > " '` replaced by its entity.
pub open spec fn escape(s: Seq<char>) -> Seq<char>
    decreases s.len(),
{
    if s.len() == 0 {
        Seq::empty()
    } else {
        escape(s.drop_last()) + escape_char(s.last())
    }
}

/// Escapes `text` for use in HTML content and attribute values.
pub fn escape_html(text: &str) -> (r: String)
    ensures
        r@ == escape(text@),
{
    let cs = chars_of(text);
    let mut out = String::new();
    let mut i: usize = 0;
    while i < cs.len()
        invariant
            cs@ == text@,
            i <= cs.len(),
            out@ == escape(cs@.subrange(0, i as int)),
        decreases cs.len() - i,
    {
        let c = cs[i];
        if c == '&' {
            push_text(&mut out, "&amp;");
        } else if c == '<' {
            push_text(&mut out, "&lt;");
        } else if c == '>' {
            push_text(&mut out, "&gt;");
        } else if c == '"' {
            push_text(&mut out, "&quot;");
        } else if c == '\'' {
            push_text(&mut out, "&#x27;");
        } else {
            push_char(&mut out, c);
        }
        assert(cs@.subrange(0, i + 1).drop_last() =~= cs@.subrange(0, i as int));
        i = i + 1;
    }
    assert(cs@.subrange(0, i as int) =~= cs@);
    out
}


/// Whether `c` is one of the characters that escaping removes from text.
pub open spec fn is_markup_char(c: char) -> bool {
    c == '<' || c == '>' || c == '"' || c == '\''
}

/// Reads entities back: the left inverse of `escape`.
pub open spec fn unescape(s: Seq<char>) -> Seq<char>
    decreases s.len(),
{
    if s.len() == 0 {
        Seq::empty()
    } else if s.len() >= 5 && s.subrange(s.len() - 5, s.len() as int) == "&amp;"@ {
        unescape(s.subrange(0, s.len() - 5)).push('&')
    } else if s.len() >= 4 && s.subrange(s.len() - 4, s.len() as int) == "&lt;"@ {
        unescape(s.subrange(0, s.len() - 4)).push('<')
    } else if s.len() >= 4 && s.subrange(s.len() - 4, s.len() as int) == "&gt;"@ {
        unescape(s.subrange(0, s.len() - 4)).push('>')
    } else if s.len() >= 6 && s.subrange(s.len() - 6, s.len() as int) == "&quot;"@ {
        unescape(s.subrange(0, s.len() - 6)).push('"')
    } else if s.len() >= 6 && s.subrange(s.len() - 6, s.len() as int) == "&#x27;"@ {
        unescape(s.subrange(0, s.len() - 6)).push('\'')
    } else {
        unescape(s.drop_last()).push(s.last())
    }
}

/// Whether one of the five entities that escaping writes starts at `i` in `s`.
pub open spec fn entity_at(s: Seq<char>, i: int) -> bool {
    ||| i + 5 <= s.len() && s.subrange(i, i + 5) == "&amp;"@
    ||| i + 4 <= s.len() && s.subrange(i, i + 4) == "&lt;"@
    ||| i + 4 <= s.len() && s.subrange(i, i + 4) == "&gt;"@
    ||| i + 6 <= s.len() && s.subrange(i, i + 6) == "&quot;"@
    ||| i + 6 <= s.len() && s.subrange(i, i + 6) == "&#x27;"@
}

/// Escaped text holds none of `< > " '` as raw characters, each `&` in it
/// starts an entity, and every text is recovered from its escaped form, so
/// no two texts escape alike.
pub proof fn lemma_escape_is_safe_and_reversible(s: Seq<char>)
    ensures
        forall|i: int| 0 <= i < escape(s).len() ==> !is_markup_char(#[trigger] escape(s)[i]),
        forall|i: int| 0 <= i < escape(s).len() && #[trigger] escape(s)[i] == '&'
            ==> entity_at(escape(s), i),
        unescape(escape(s)) == s,
    decreases s.len(),
{
    reveal_strlit("&amp;");
    reveal_strlit("&lt;");
    reveal_strlit("&gt;");
    reveal_strlit("&quot;");
    reveal_strlit("&#x27;");
    if s.len() > 0 {
        let pre = s.drop_last();
        let c = s.last();
        lemma_escape_is_safe_and_reversible(pre);
        let e = escape(pre);
        let t = escape_char(c);
        let full = e + t;
        assert(escape(s) == full);
        assert forall|i: int| 0 <= i < full.len() implies !is_markup_char(#[trigger] full[i]) by {
            if i >= e.len() {
                assert(full[i] == t[i - e.len()]);
            }
        }
        let n = full.len() as int;
        let k = t.len() as int;
        assert(full.subrange(0, n - k) =~= e);
        assert(full.subrange(n - k, n) =~= t);
        assert forall|i: int| 0 <= i < full.len() && #[trigger] full[i] == '&' implies entity_at(
            full,
            i,
        ) by {
            if i < e.len() {
                assert(e[i] == '&');
                assert(entity_at(e, i));
                assert forall|m: int| 0 <= m && i + m <= e.len() implies #[trigger] full.subrange(i, i + m)
                    == e.subrange(i, i + m) by {
                    assert(full.subrange(i, i + m) =~= e.subrange(i, i + m));
                }
                assert(i + 4 <= e.len() ==> full.subrange(i, i + 4) == e.subrange(i, i + 4));
                assert(i + 5 <= e.len() ==> full.subrange(i, i + 5) == e.subrange(i, i + 5));
                assert(i + 6 <= e.len() ==> full.subrange(i, i + 6) == e.subrange(i, i + 6));
            } else {
                assert(full[i] == t[i - e.len()]);
                assert(i == e.len());
                assert(full.subrange(i, i + k) == t);
            }
        }
        if c == '&' {
            assert(full.subrange(n - 5, n) == "&amp;"@);
            assert(unescape(full) == unescape(e).push(c));
        } else if c == '<' {
            if n >= 5 {
                assert(full.subrange(n - 5, n)[3] == 't');
            }
            assert(full.subrange(n - 4, n) == "&lt;"@);
            assert(unescape(full) == unescape(e).push(c));
        } else if c == '>' {
            if n >= 5 {
                assert(full.subrange(n - 5, n)[3] == 't');
            }
            assert(full.subrange(n - 4, n)[1] == 'g');
            assert(full.subrange(n - 4, n) == "&gt;"@);
            assert(unescape(full) == unescape(e).push(c));
        } else if c == '"' {
            assert(full.subrange(n - 5, n)[1] == 'u');
            assert(full.subrange(n - 4, n)[0] == 'u');
            assert(full.subrange(n - 6, n) == "&quot;"@);
            assert(unescape(full) == unescape(e).push(c));
        } else if c == '\'' {
            assert(full.subrange(n - 5, n)[0] == '#');
            assert(full.subrange(n - 4, n)[0] == 'x');
            assert(full.subrange(n - 6, n)[1] == '#');
            assert(full.subrange(n - 6, n) == "&#x27;"@);
            assert(unescape(full) == unescape(e).push(c));
        } else {
            assert(full.last() == c);
            if c == ';' {
                if n >= 4 && full.subrange(n - 4, n)[0] == '&' {
                    assert(e[n - 4] == '&');
                    assert(entity_at(e, n - 4));
                }
                if n >= 5 && full.subrange(n - 5, n)[0] == '&' {
                    assert(e[n - 5] == '&');
                    assert(entity_at(e, n - 5));
                    assert(full.subrange(n - 5, n)[1] == e.subrange(n - 5, n - 1)[1]);
                }
                if n >= 6 && full.subrange(n - 6, n)[0] == '&' {
                    assert(e[n - 6] == '&');
                    assert(entity_at(e, n - 6));
                    assert(full.subrange(n - 6, n)[1] == e.subrange(n - 6, n - 1)[1]);
                }
            }
            if n >= 4 {
                assert(full.subrange(n - 4, n)[3] == c);
            }
            if n >= 5 {
                assert(full.subrange(n - 5, n)[4] == c);
            }
            if n >= 6 {
                assert(full.subrange(n - 6, n)[5] == c);
            }
            assert(full.drop_last() =~= e);
            assert(unescape(full) == unescape(e).push(c));
        }
        assert(pre.push(c) =~= s);
    }
}

/// `s` without the `'/'` characters at its end.
pub open spec fn trim_trailing_slashes(s: Seq<char>) -> Seq<char>
    decreases s.len(),
{
    if s.len() > 0 && s.last() == '/' {
        trim_trailing_slashes(s.drop_last())
    } else {
        s
    }
}

/// `s` without the `'/'` characters at its end.
pub fn trim_slashes(s: &str) -> (r: String)
    ensures
        r@ == trim_trailing_slashes(s@),
{
    let cs = chars_of(s);
    let mut end: usize = cs.len();
    assert(cs@.subrange(0, end as int) =~= s@);
    while end > 0 && cs[end - 1] == '/'
        invariant
            end <= cs.len(),
            trim_trailing_slashes(cs@.subrange(0, end as int)) == trim_trailing_slashes(s@),
            cs@ == s@,
        decreases end,
    {
        assert(cs@.subrange(0, end as int).drop_last() =~= cs@.subrange(0, end - 1));
        end = end - 1;
    }
    let mut out = String::new();
    let mut i: usize = 0;
    while i < end
        invariant
            end <= cs.len(),
            i <= end,
            out@ == cs@.subrange(0, i as int),
        decreases end - i,
    {
        push_char(&mut out, cs[i]);
        assert(cs@.subrange(0, i + 1) =~= cs@.subrange(0, i as int).push(cs@[i as int]));
        i = i + 1;
    }
    out
}

/// `s` with every occurrence of `pat`, found from left to right without
/// overlap, replaced by `rep`.
pub open spec fn replace_all(s: Seq<char>, pat: Seq<char>, rep: Seq<char>) -> Seq<char>
    decreases s.len(),
{
    if s.len() == 0 {
        Seq::empty()
    } else if pat.len() > 0 && pat.len() <= s.len() && s.subrange(0, pat.len() as int) == pat {
        rep + replace_all(s.subrange(pat.len() as int, s.len() as int), pat, rep)
    } else {
        seq![s[0]] + replace_all(s.subrange(1, s.len() as int), pat, rep)
    }
}

fn occurs_at(cs: &Vec<char>, pat: &Vec<char>, i: usize) -> (r: bool)
    requires
        i <= cs.len(),
    ensures
        r == (pat.len() <= cs.len() - i && cs@.subrange(i as int, i + pat.len()) == pat@),
{
    if pat.len() > cs.len() - i {
        return false;
    }
    let mut j: usize = 0;
    while j < pat.len()
        invariant
            j <= pat.len(),
            pat.len() <= cs.len() - i,
            cs@.subrange(i as int, i + j) == pat@.subrange(0, j as int),
        decreases pat.len() - j,
    {
        if cs[i + j] != pat[j] {
            assert(cs@.subrange(i as int, i + pat.len())[j as int] != pat@[j as int]);
            return false;
        }
        assert(cs@.subrange(i as int, i + j + 1) =~= pat@.subrange(0, j + 1));
        j = j + 1;
    }
    assert(pat@.subrange(0, j as int) =~= pat@);
    true
}

/// Replaces every occurrence of the non-empty `pat` in `s` by `rep`.
pub fn replace_token(s: &str, pat: &str, rep: &str) -> (r: String)
    requires
        pat@.len() > 0,
    ensures
        r@ == replace_all(s@, pat@, rep@),
{
    let cs = chars_of(s);
    let pv = chars_of(pat);
    let mut out = String::new();
    let mut i: usize = 0;
    assert(cs@.subrange(0, cs@.len() as int) =~= cs@);
    while i < cs.len()
        invariant
            cs@ == s@,
            pv@ == pat@,
            pat@.len() > 0,
            i <= cs.len(),
            out@ + replace_all(cs@.subrange(i as int, cs@.len() as int), pat@, rep@)
                == replace_all(s@, pat@, rep@),
        decreases cs.len() - i,
    {
        let ghost rest = cs@.subrange(i as int, cs@.len() as int);
        if occurs_at(&cs, &pv, i) {
            assert(rest.subrange(0, pat@.len() as int) =~= pat@);
            assert(rest.subrange(pat@.len() as int, rest.len() as int)
                =~= cs@.subrange(i + pv.len(), cs@.len() as int));
            push_text(&mut out, rep);
            assert(out@ + replace_all(cs@.subrange(i + pv.len(), cs@.len() as int), pat@, rep@)
                =~= replace_all(s@, pat@, rep@));
            i = i + pv.len();
        } else {
            assert(pat@.len() <= rest.len() ==> rest.subrange(0, pat@.len() as int)
                =~= cs@.subrange(i as int, i + pv.len()));
            assert(rest.subrange(1, rest.len() as int) =~= cs@.subrange(i + 1, cs@.len() as int));
            push_char(&mut out, cs[i]);
            assert(out@ + replace_all(cs@.subrange(i + 1, cs@.len() as int), pat@, rep@)
                =~= replace_all(s@, pat@, rep@));
            i = i + 1;
        }
    }
    assert(replace_all(cs@.subrange(i as int, cs@.len() as int), pat@, rep@) =~= Seq::empty());
    assert(out@ =~= out@ + Seq::<char>::empty());
    out
}

} // verus!
