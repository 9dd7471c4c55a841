//! Text handling: the encoded size of a text, markup escaping, and the
//! normalisation of line breaks that a stored paste goes through.
use vstd::prelude::*;

verus! {

/// How many bytes UTF-8 takes for one character.
pub open spec fn utf8_width(c: char) -> nat {
    if (c as u32) < 0x80 {
        1
    } else if (c as u32) < 0x800 {
        2
    } else if (c as u32) < 0x10000 {
        3
    } else {
        4
    }
}

/// How many bytes UTF-8 takes for a text.
pub open spec fn utf8_len(s: Seq<char>) -> nat
    decreases s.len(),
{
    if s.len() == 0 {
        0
    } else {
        utf8_len(s.drop_last()) + utf8_width(s.last())
    }
}

/// Relies on str::chars, collected: the characters of the text, in order.
#[verifier::external_body]
pub(crate) fn chars_of(s: &str) -> (r: Vec<char>)
    ensures
        r@ == s@,
{
    s.chars().collect()
}

/// Relies on String's FromIterator<char>: the text made of these characters.
#[verifier::external_body]
pub(crate) fn string_of(v: Vec<char>) -> (r: String)
    ensures
        r@ == v@,
{
    v.into_iter().collect()
}

/// The number of bytes that UTF-8 takes for `s`.
pub fn encoded_len(s: &str) -> (r: u128)
    ensures
        r as nat == utf8_len(s@),
        r <= 4 * (usize::MAX as int),
{
    let cs = chars_of(s);
    let mut acc: u128 = 0;
    let mut i: usize = 0;
    while i < cs.len()
        invariant
            cs@ == s@,
            i <= cs.len(),
            acc as nat == utf8_len(cs@.take(i as int)),
            acc <= 4 * i,
        decreases cs.len() - i,
    {
        let c = cs[i];
        let w: u128 = if (c as u32) < 0x80 {
            1
        } else if (c as u32) < 0x800 {
            2
        } else if (c as u32) < 0x10000 {
            3
        } else {
            4
        };
        proof {
            let t = cs@.take(i as int + 1);
            assert(t.drop_last() =~= cs@.take(i as int));
            assert(t.last() == c);
        }
        acc = acc + w;
        i = i + 1;
    }
    proof {
        assert(cs@.take(i as int) =~= s@);
    }
    acc
}

/// What markup escaping makes of one character: `&`, `<` and `>` become
/// entities, every other character stays.
pub open spec fn escaped_char(c: char) -> Seq<char> {
    if c == '&' {
        seq!['&', 'a', 'm', 'p', ';']
    } else if c == '<' {
        seq!['&', 'l', 't', ';']
    } else if c == '>' {
        seq!['&', 'g', 't', ';']
    } else {
        seq![c]
    }
}

/// A text with its markup characters escaped, one character at a time.
pub open spec fn html_escaped(s: Seq<char>) -> Seq<char>
    decreases s.len(),
{
    if s.len() == 0 {
        Seq::empty()
    } else {
        html_escaped(s.drop_last()) + escaped_char(s.last())
    }
}

/// The token that stands for a line break in stored text.
pub open spec fn line_break() -> Seq<char> {
    seq!['<', 'b', 'r', '>']
}

/// A text with each `\r\n`, and then each remaining `\n`, replaced by a
/// line-break token.
pub open spec fn breaks_normalized(s: Seq<char>) -> Seq<char>
    decreases s.len(),
{
    if s.len() == 0 {
        Seq::empty()
    } else if s[0] == '\r' && s.len() >= 2 && s[1] == '\n' {
        line_break() + breaks_normalized(s.skip(2))
    } else if s[0] == '\n' {
        line_break() + breaks_normalized(s.skip(1))
    } else {
        seq![s[0]] + breaks_normalized(s.skip(1))
    }
}

/// Relies on html_escape::encode_text: `&`, `<` and `>` become `&amp;`,
/// `&lt;` and `&gt;`; every other character is kept.
#[verifier::external_body]
fn escape_markup(s: &str) -> (r: String)
    ensures
        r@ == html_escaped(s@),
{
    html_escape::encode_text(s).into_owned()
}

fn push_break(out: &mut Vec<char>)
    ensures
        final(out)@ == old(out)@ + line_break(),
{
    out.push('<');
    out.push('b');
    out.push('r');
    out.push('>');
    proof {
        assert(final(out)@ =~= old(out)@ + line_break());
    }
}

/// Replaces each `\r\n`, and then each remaining `\n`, by `<br>`.
pub fn normalize_line_breaks(s: &str) -> (r: String)
    ensures
        r@ == breaks_normalized(s@),
{
    let cs = chars_of(s);
    let mut out: Vec<char> = Vec::new();
    let mut i: usize = 0;
    proof {
        assert(cs@.skip(0) =~= s@);
        assert(out@ + breaks_normalized(s@) =~= breaks_normalized(s@));
    }
    while i < cs.len()
        invariant
            cs@ == s@,
            i <= cs.len(),
            breaks_normalized(s@) == out@ + breaks_normalized(cs@.skip(i as int)),
        decreases cs.len() - i,
    {
        let ghost rest = cs@.skip(i as int);
        let ghost before = out@;
        if cs[i] == '\r' && i + 1 < cs.len() && cs[i + 1] == '\n' {
            push_break(&mut out);
            proof {
                assert(rest.skip(2) =~= cs@.skip(i + 2));
            }
            i = i + 2;
        } else if cs[i] == '\n' {
            push_break(&mut out);
            proof {
                assert(rest.skip(1) =~= cs@.skip(i + 1));
            }
            i = i + 1;
        } else {
            out.push(cs[i]);
            proof {
                assert(rest.skip(1) =~= cs@.skip(i + 1));
            }
            i = i + 1;
        }
        proof {
            assert(before + (out@.skip(before.len() as int)) =~= out@);
        }
    }
    proof {
        assert(cs@.skip(i as int) =~= Seq::<char>::empty());
        assert(out@ + Seq::<char>::empty() =~= out@);
    }
    string_of(out)
}

/// Prepares submitted text for storage: markup is escaped, then line breaks
/// are normalised.
pub fn sanitize(raw: &str) -> (r: String)
    ensures
        r@ == breaks_normalized(html_escaped(raw@)),
{
    let escaped = escape_markup(raw);
    normalize_line_breaks(escaped.as_str())
}

} // verus!
