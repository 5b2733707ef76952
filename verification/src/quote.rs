//! Writing a string back as a literal.

use vstd::prelude::*;
use crate::chars::line_break;
use crate::context::Context;
use crate::digits::{digit_at, run_value};
use crate::dispatch::token;
use crate::escape::{escaped_char, hex_char, hex_count, unicode_escape};
use crate::input::{char_at, offset, Scan};
use crate::str_lit::{str_lit, str_scan, str_step, StrStep};
use crate::text::push_char;
use crate::token::TokenView;

verus! {

/// Whether `c` cannot stand for itself in a string literal in double
/// quotes: the quote, the backslash and the line terminators.
pub open spec fn needs_escape(c: char) -> bool {
    c == '"' || c == '\\' || line_break(c)
}

/// The way `c` is written in a string literal in double quotes, with an
/// escape only where one is needed.
pub open spec fn quoted_char(c: char) -> Seq<char> {
    if c == '"' {
        seq!['\\', '"']
    } else if c == '\\' {
        seq!['\\', '\\']
    } else if c == '\n' {
        seq!['\\', 'n']
    } else if c == '\r' {
        seq!['\\', 'r']
    } else if c == '\u{2028}' {
        seq!['\\', 'u', '2', '0', '2', '8']
    } else if c == '\u{2029}' {
        seq!['\\', 'u', '2', '0', '2', '9']
    } else {
        seq![c]
    }
}

/// The characters of `v` as they are written between the quotes.
pub open spec fn quoted_body(v: Seq<char>) -> Seq<char>
    decreases v.len(),
{
    if v.len() == 0 {
        Seq::empty()
    } else {
        quoted_char(v[0]) + quoted_body(v.drop_first())
    }
}

/// The string literal in double quotes that stands for `v`.
pub open spec fn quoted(v: Seq<char>) -> Seq<char> {
    seq!['"'] + quoted_body(v) + seq!['"']
}

/// Whether some character of `v` needs an escape.
pub open spec fn any_escaped(v: Seq<char>) -> bool
    decreases v.len(),
{
    v.len() > 0 && (needs_escape(v[0]) || any_escaped(v.drop_first()))
}

/// One more character at the end of `v` adds its own spelling at the end.
pub proof fn lemma_quoted_body_push(v: Seq<char>, c: char)
    ensures
        quoted_body(v.push(c)) == quoted_body(v) + quoted_char(c),
    decreases v.len(),
{
    let w = v.push(c);
    if v.len() == 0 {
        assert(w[0] == c);
        assert(w.drop_first() =~= Seq::<char>::empty());
        assert(quoted_body(w) == quoted_char(c) + quoted_body(w.drop_first()));
        assert(quoted_body(w) =~= quoted_body(v) + quoted_char(c));
    } else {
        assert(w[0] == v[0]);
        assert(w.drop_first() =~= v.drop_first().push(c));
        lemma_quoted_body_push(v.drop_first(), c);
        assert(quoted_body(w) == quoted_char(v[0]) + quoted_body(w.drop_first()));
        assert(quoted_body(v) == quoted_char(v[0]) + quoted_body(v.drop_first()));
        assert(quoted_char(v[0]) + (quoted_body(v.drop_first()) + quoted_char(c)) =~= (quoted_char(
            v[0],
        ) + quoted_body(v.drop_first())) + quoted_char(c));
    }
}

/// The escape that spells the line separator or the paragraph separator
/// with four hexadecimal digits reads as that character.
proof fn lemma_line_separator_escape(s: Seq<char>, i: int, strict: bool, c: char)
    requires
        0 <= i,
        i + 6 <= s.len(),
        c == '\u{2028}' || c == '\u{2029}',
        s.subrange(i, i + 6) == quoted_char(c),
    ensures
        escaped_char(s, i, false, strict) == (Scan::Done { value: Some(c), end: i + 6 }),
{
    let q = s.subrange(i, i + 6);
    assert(q[0] == '\\' && q[1] == 'u' && q[2] == '2' && q[3] == '0' && q[4] == '2');
    assert(q[5] == (if c == '\u{2028}' {
        '8'
    } else {
        '9'
    }));
    assert(s[i] == q[0] && s[i + 1] == q[1] && s[i + 2] == q[2] && s[i + 3] == q[3] && s[i + 4]
        == q[4] && s[i + 5] == q[5]);
    let lo = offset(s, i) as usize;
    assert(digit_at(s, i + 2, 16) == Some(2nat));
    assert(digit_at(s, i + 3, 16) == Some(0nat));
    assert(digit_at(s, i + 4, 16) == Some(2nat));
    assert(digit_at(s, i + 5, 16) is Some);
    assert(hex_count(s, i + 6, 0) == 0);
    assert(hex_count(s, i + 5, 1) == 1);
    assert(hex_count(s, i + 4, 2) == 2);
    assert(hex_count(s, i + 3, 3) == 3);
    assert(hex_count(s, i + 2, 4) == 4);
    assert(run_value(s, i + 2, i + 2, 16) == 0);
    assert(run_value(s, i + 2, i + 3, 16) == 2);
    assert(run_value(s, i + 2, i + 4, 16) == 0x20);
    assert(run_value(s, i + 2, i + 5, 16) == 0x202);
    assert(run_value(s, i + 2, i + 6, 16) == c as nat);
    assert(hex_char(s, lo, i + 2, 4) == (Scan::Done { value: c, end: i + 6 }));
    assert(unicode_escape(s, lo, i + 1) == (Scan::Done { value: c, end: i + 6 }));
}

/// The spelling of one character, read as a piece of a string literal in
/// double quotes, gives the character back.
proof fn lemma_quoted_char_step(s: Seq<char>, lo: usize, i: int, c: char, strict: bool)
    requires
        0 <= i,
        i + quoted_char(c).len() <= s.len(),
        s.subrange(i, i + quoted_char(c).len()) == quoted_char(c),
    ensures
        str_step(s, lo, i, '"', strict) == (StrStep::Take {
            c: Some(c),
            end: i + quoted_char(c).len(),
            escaped: needs_escape(c),
        }),
{
    let q = quoted_char(c);
    let t = s.subrange(i, i + q.len());
    assert(s[i] == t[0]);
    if c == '\u{2028}' || c == '\u{2029}' {
        lemma_line_separator_escape(s, i, strict, c);
    } else if needs_escape(c) {
        assert(s[i + 1] == t[1]);
        assert(escaped_char(s, i, false, strict) == (Scan::Done { value: Some(c), end: i + 2 }));
    }
}

/// The body of a quoted string, read as the rest of a string literal, gives
/// its characters back.
proof fn lemma_quoted_body_scan(
    s: Seq<char>,
    lo: usize,
    i: int,
    v: Seq<char>,
    strict: bool,
    acc: Seq<char>,
    esc: bool,
)
    requires
        0 <= i,
        i + quoted_body(v).len() < s.len(),
        s.subrange(i, i + quoted_body(v).len()) == quoted_body(v),
        s[i + quoted_body(v).len()] == '"',
    ensures
        str_scan(s, lo, i, '"', strict, acc, esc) == (Scan::Done {
            value: TokenView::Str { value: acc + v, has_escape: esc || any_escaped(v) },
            end: i + quoted_body(v).len() + 1,
        }),
    decreases v.len(),
{
    if v.len() == 0 {
        assert(acc + v =~= acc);
        assert(str_step(s, lo, i, '"', strict) == StrStep::Close { end: i + 1 });
    } else {
        let c = v[0];
        let q = quoted_char(c);
        let rest = quoted_body(v.drop_first());
        let whole = s.subrange(i, i + quoted_body(v).len());
        assert(whole == q + rest);
        assert(s.subrange(i + q.len(), i + q.len() + rest.len()) =~= rest) by {
            assert forall|k: int| 0 <= k < rest.len() implies s[i + q.len() + k] == rest[k] by {
                assert(whole[q.len() + k] == rest[k]);
            }
        }
        assert(s.subrange(i, i + q.len()) =~= q) by {
            assert forall|k: int| 0 <= k < q.len() implies s[i + k] == q[k] by {
                assert(whole[k] == q[k]);
            }
        }
        lemma_quoted_char_step(s, lo, i, c, strict);
        lemma_quoted_body_scan(
            s,
            lo,
            i + q.len(),
            v.drop_first(),
            strict,
            acc.push(c),
            esc || needs_escape(c),
        );
        assert(acc.push(c) + v.drop_first() =~= acc + v);
    }
}

/// A string that is written back as a literal with as little escaping as
/// can be, and read again, is the same string: the literal is one token,
/// which takes all of it, and the token's value is the string. This holds
/// in strict code and elsewhere.
pub proof fn lemma_quote_round_trip(v: Seq<char>, ctx: Context, expr_allowed: bool)
    ensures
        str_lit(quoted(v), 0, ctx.strict) == (Scan::Done {
            value: TokenView::Str { value: v, has_escape: any_escaped(v) },
            end: quoted(v).len() as int,
        }),
        token(quoted(v), 0, ctx, expr_allowed) == (Scan::Done {
            value: Some(TokenView::Str { value: v, has_escape: any_escaped(v) }),
            end: quoted(v).len() as int,
        }),
{
    let s = quoted(v);
    let body = quoted_body(v);
    assert(s[0] == '"');
    assert(s[1 + body.len() as int] == '"');
    assert(s.subrange(1, 1 + body.len() as int) =~= body);
    lemma_quoted_body_scan(s, offset(s, 0) as usize, 1, v, ctx.strict, Seq::empty(), false);
    assert(Seq::<char>::empty() + v =~= v);
    assert(char_at(s, 0) == Some('"'));
}

/// Writes `value` as a string literal in double quotes, with an escape only
/// where one is needed.
pub fn quote(value: &str) -> (r: String)
    ensures
        r@ == quoted(value@),
{
    let mut out = String::new();
    push_char(&mut out, '"');
    assert(out@ =~= seq!['"'] + quoted_body(value@.take(0)));
    for c in it: value.chars()
        invariant
            it.seq() == value@,
            out@ == seq!['"'] + quoted_body(value@.take(it.index())),
    {
        let ghost before = out@;
        proof {
            lemma_quoted_body_push(value@.take(it.index()), c);
            assert(value@.take(it.index() + 1) =~= value@.take(it.index()).push(c));
        }
        if c == '"' {
            push_char(&mut out, '\\');
            push_char(&mut out, '"');
        } else if c == '\\' {
            push_char(&mut out, '\\');
            push_char(&mut out, '\\');
        } else if c == '\n' {
            push_char(&mut out, '\\');
            push_char(&mut out, 'n');
        } else if c == '\r' {
            push_char(&mut out, '\\');
            push_char(&mut out, 'r');
        } else if c == '\u{2028}' || c == '\u{2029}' {
            push_char(&mut out, '\\');
            push_char(&mut out, 'u');
            push_char(&mut out, '2');
            push_char(&mut out, '0');
            push_char(&mut out, '2');
            push_char(
                &mut out,
                if c == '\u{2028}' {
                    '8'
                } else {
                    '9'
                },
            );
        } else {
            push_char(&mut out, c);
        }
        assert(out@ =~= before + quoted_char(c));
        assert(out@ =~= seq!['"'] + (quoted_body(value@.take(it.index())) + quoted_char(c)));
    }
    assert(value@.take(value@.len() as int) =~= value@);
    push_char(&mut out, '"');
    out
}

} // verus!
