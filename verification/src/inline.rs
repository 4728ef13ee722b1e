//! Executable inline codec: renders a span sequence to characters and scans
//! characters back into spans, each proved to compute exactly the spec-level
//! `render_spans` and `parse_inline` functions.
use vstd::prelude::*;
use crate::ir::{Span, SpanV, span_view, spans_view};
use crate::mdspec::{render_span, render_spans, parse_inline, cons_char};
use crate::chars::{chars_to_string, str_to_chars, sub_chars, find_char_at, find_pair_at};

verus! {

/// Renders the spans `spans[i..]` as inline Markdown text.
pub fn render_spans_from(spans: &Vec<Span>, i: usize) -> (r: Vec<char>)
    requires
        i <= spans@.len(),
    ensures
        r@ == render_spans(spans_view(spans@.subrange(i as int, spans@.len() as int))),
    decreases spans@.subrange(i as int, spans@.len() as int),
{
    let ghost tail = spans@.subrange(i as int, spans@.len() as int);
    let mut r: Vec<char> = Vec::new();
    if i == spans.len() {
        proof {
            assert(tail =~= Seq::<Span>::empty());
        }
        return r;
    }
    proof {
        assert(tail[0] == spans@[i as int]);
        assert(tail.drop_first() =~= spans@.subrange(i + 1, spans@.len() as int));
        assert(decreases_to!(tail => tail[0]));
    }
    match &spans[i] {
        Span::Text { text } => {
            let mut tc = str_to_chars(text.as_str());
            r.append(&mut tc);
        },
        Span::Emphasis { inner } => {
            proof {
                assert(decreases_to!(tail[0] => inner));
                assert(inner@.subrange(0, inner@.len() as int) =~= inner@);
            }
            r.push('*');
            let mut m = render_spans_from(inner, 0);
            r.append(&mut m);
            r.push('*');
        },
        Span::Strong { inner } => {
            proof {
                assert(decreases_to!(tail[0] => inner));
                assert(inner@.subrange(0, inner@.len() as int) =~= inner@);
            }
            r.push('*');
            r.push('*');
            let mut m = render_spans_from(inner, 0);
            r.append(&mut m);
            r.push('*');
            r.push('*');
        },
        Span::Strike { inner } => {
            proof {
                assert(decreases_to!(tail[0] => inner));
                assert(inner@.subrange(0, inner@.len() as int) =~= inner@);
            }
            r.push('~');
            r.push('~');
            let mut m = render_spans_from(inner, 0);
            r.append(&mut m);
            r.push('~');
            r.push('~');
        },
        Span::InlineCode { text } => {
            r.push('`');
            let mut tc = str_to_chars(text.as_str());
            r.append(&mut tc);
            r.push('`');
        },
        Span::Link { inner, url } => {
            proof {
                assert(decreases_to!(tail[0] => inner));
                assert(inner@.subrange(0, inner@.len() as int) =~= inner@);
            }
            r.push('[');
            let mut m = render_spans_from(inner, 0);
            r.append(&mut m);
            r.push(']');
            r.push('(');
            let mut uc = str_to_chars(url.as_str());
            r.append(&mut uc);
            r.push(')');
        },
        Span::LineBreak => {
            r.push(' ');
        },
    }
    proof {
        assert(r@ =~= render_span(span_view(spans@[i as int])));
        assert(decreases_to!(spans@.subrange(i as int, spans@.len() as int) =>
            spans@.subrange(i + 1, spans@.len() as int)));
    }
    let mut rest = render_spans_from(spans, i + 1);
    r.append(&mut rest);
    proof {
        let sv = spans_view(tail);
        assert(sv == seq![span_view(tail[0])] + spans_view(tail.drop_first()));
        assert(sv[0] == span_view(tail[0]));
        assert(sv.drop_first() =~= spans_view(tail.drop_first()));
        assert(render_spans(sv) == render_span(sv[0]) + render_spans(sv.drop_first()));
    }
    r
}

/// The literal-character fallback of the inline scanner: the first character
/// degrades to text and is merged into a leading text span of the rest.
fn parse_cons(s: &Vec<char>) -> (r: Vec<Span>)
    requires
        s@.len() > 0,
    ensures
        spans_view(r@) == cons_char(s@[0], parse_inline(s@.drop_first())),
    decreases s@.len(), 0int,
{
    let c = s[0];
    let tail = sub_chars(s, 1, s.len());
    proof {
        assert(tail@ =~= s@.drop_first());
    }
    let mut rest = parse_inline_chars(&tail);
    let ghost pv = parse_inline(s@.drop_first());
    let first_is_text = if rest.len() > 0 {
        match &rest[0] {
            Span::Text { .. } => true,
            _ => false,
        }
    } else {
        false
    };
    if first_is_text {
        let ghost pre = rest@;
        let first = rest.remove(0);
        proof {
            assert(rest@ =~= pre.drop_first());
            assert(spans_view(pre) == seq![span_view(pre[0])] + spans_view(pre.drop_first()));
        }
        match first {
            Span::Text { text } => {
                let mut tc: Vec<char> = Vec::new();
                tc.push(c);
                let mut oc = str_to_chars(text.as_str());
                tc.append(&mut oc);
                let merged = Span::Text { text: chars_to_string(&tc) };
                let ghost mv = span_view(merged);
                let ghost mid = rest@;
                rest.insert(0, merged);
                proof {
                    assert(rest@.drop_first() =~= mid);
                    assert(span_view(rest@[0]) == mv);
                    assert(spans_view(rest@) == seq![span_view(rest@[0])] + spans_view(
                        rest@.drop_first(),
                    ));
                    assert(pv == spans_view(pre));
                    assert(pv[0] == span_view(pre[0]));
                    assert(pv.drop_first() =~= spans_view(pre.drop_first()));
                    assert(spans_view(rest@) =~= cons_char(s@[0], pv));
                }
            },
            other => {
                proof {
                    assert(false);
                }
                rest.insert(0, other);
            },
        }
    } else {
        let mut v: Vec<char> = Vec::new();
        v.push(c);
        let lit = Span::Text { text: chars_to_string(&v) };
        let ghost lv = span_view(lit);
        let ghost mid = rest@;
        rest.insert(0, lit);
        proof {
            assert(rest@.drop_first() =~= mid);
            assert(span_view(rest@[0]) == lv);
            assert(spans_view(rest@) == seq![span_view(rest@[0])] + spans_view(
                rest@.drop_first(),
            ));
            assert(pv == spans_view(mid));
            if pv.len() > 0 {
                assert(pv[0] == span_view(mid[0]));
                assert(!(pv[0] is Text));
            }
            assert(spans_view(rest@) =~= cons_char(s@[0], pv));
        }
    }
    rest
}

/// The inline scanner: parses inline Markdown text into spans, exactly as
/// the spec-level `parse_inline` does.
pub fn parse_inline_chars(s: &Vec<char>) -> (r: Vec<Span>)
    ensures
        spans_view(r@) == parse_inline(s@),
    decreases s@.len(), 1int,
{
    let n = s.len();
    if n == 0 {
        let r: Vec<Span> = Vec::new();
        proof {
            assert(spans_view(r@) =~= parse_inline(s@));
        }
        return r;
    }
    if s[0] == '*' && n >= 2 && s[1] == '*' {
        let j = find_pair_at(s, 2, '*');
        if j < n {
            proof {
                crate::mdspec::lemma_find_pair(s@, 2, '*');
            }
            let inner_c = sub_chars(s, 2, j);
            let inner = parse_inline_chars(&inner_c);
            let rest_c = sub_chars(s, j + 2, n);
            let mut r = parse_inline_chars(&rest_c);
            let ghost iv = inner@;
            let sp = Span::Strong { inner };
            let ghost spv = span_view(sp);
            let ghost pre = r@;
            r.insert(0, sp);
            proof {
                assert(r@.drop_first() =~= pre);
                assert(span_view(r@[0]) == spv);
                assert(spans_view(r@) == seq![span_view(r@[0])] + spans_view(r@.drop_first()));
                assert(spans_view(r@) =~= parse_inline(s@));
            }
            return r;
        }
        let r = parse_cons(s);
        return r;
    }
    if s[0] == '*' {
        let j = find_char_at(s, 1, '*');
        if j < n {
            proof {
                crate::mdspec::lemma_find_char(s@, 1, '*');
            }
            let inner_c = sub_chars(s, 1, j);
            let inner = parse_inline_chars(&inner_c);
            let rest_c = sub_chars(s, j + 1, n);
            let mut r = parse_inline_chars(&rest_c);
            let sp = Span::Emphasis { inner };
            let ghost spv = span_view(sp);
            let ghost pre = r@;
            r.insert(0, sp);
            proof {
                assert(r@.drop_first() =~= pre);
                assert(span_view(r@[0]) == spv);
                assert(spans_view(r@) == seq![span_view(r@[0])] + spans_view(r@.drop_first()));
                assert(spans_view(r@) =~= parse_inline(s@));
            }
            return r;
        }
        let r = parse_cons(s);
        return r;
    }
    if s[0] == '~' && n >= 2 && s[1] == '~' {
        let j = find_pair_at(s, 2, '~');
        if j < n {
            proof {
                crate::mdspec::lemma_find_pair(s@, 2, '~');
            }
            let inner_c = sub_chars(s, 2, j);
            let inner = parse_inline_chars(&inner_c);
            let rest_c = sub_chars(s, j + 2, n);
            let mut r = parse_inline_chars(&rest_c);
            let sp = Span::Strike { inner };
            let ghost spv = span_view(sp);
            let ghost pre = r@;
            r.insert(0, sp);
            proof {
                assert(r@.drop_first() =~= pre);
                assert(span_view(r@[0]) == spv);
                assert(spans_view(r@) == seq![span_view(r@[0])] + spans_view(r@.drop_first()));
                assert(spans_view(r@) =~= parse_inline(s@));
            }
            return r;
        }
        let r = parse_cons(s);
        return r;
    }
    if s[0] == '`' {
        let j = find_char_at(s, 1, '`');
        if j < n {
            let text_c = sub_chars(s, 1, j);
            let rest_c = sub_chars(s, j + 1, n);
            let mut r = parse_inline_chars(&rest_c);
            let sp = Span::InlineCode { text: chars_to_string(&text_c) };
            let ghost spv = span_view(sp);
            let ghost pre = r@;
            r.insert(0, sp);
            proof {
                assert(r@.drop_first() =~= pre);
                assert(span_view(r@[0]) == spv);
                assert(spans_view(r@) == seq![span_view(r@[0])] + spans_view(r@.drop_first()));
                assert(spans_view(r@) =~= parse_inline(s@));
            }
            return r;
        }
        let r = parse_cons(s);
        return r;
    }
    if s[0] == '[' {
        let j = find_char_at(s, 1, ']');
        if j < n && j + 1 < n && s[j + 1] == '(' {
            let k = find_char_at(s, j + 2, ')');
            if k < n {
                let inner_c = sub_chars(s, 1, j);
                let inner = parse_inline_chars(&inner_c);
                let url_c = sub_chars(s, j + 2, k);
                let rest_c = sub_chars(s, k + 1, n);
                let mut r = parse_inline_chars(&rest_c);
                let sp = Span::Link { inner, url: chars_to_string(&url_c) };
                let ghost spv = span_view(sp);
                let ghost pre = r@;
                r.insert(0, sp);
                proof {
                    assert(r@.drop_first() =~= pre);
                    assert(span_view(r@[0]) == spv);
                    assert(spans_view(r@) == seq![span_view(r@[0])] + spans_view(
                        r@.drop_first(),
                    ));
                    assert(spans_view(r@) =~= parse_inline(s@));
                }
                return r;
            }
            let r = parse_cons(s);
            return r;
        }
        let r = parse_cons(s);
        return r;
    }
    let r = parse_cons(s);
    r
}

} // verus!
