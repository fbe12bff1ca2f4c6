use vstd::prelude::*;

use crate::message::{
    colon_space, header_line, message_lines, request_line, request_text, response_wire_text,
    status_line, HeaderView, RequestView, ResponseError, ResponseView,
};
use crate::number::{decimal, is_digit, lemma_decimal_round_trip, lemma_nat_digits, nat_digits};
use crate::parse::{header_of, headers_of, parse_spec, status_parts};
use crate::text::{
    blank_line, crlf, first_match, free_of, join, lemma_first_match_is, lemma_first_match_none,
    lemma_join_front, lemma_join_push, occurs_at, split_on,
};

verus! {

/// No carriage return anywhere in `s`.
pub open spec fn no_cr(s: Seq<char>) -> bool {
    forall|i: int| 0 <= i < s.len() ==> #[trigger] s[i] != '\r'
}

/// No space anywhere in `s`.
pub open spec fn no_space(s: Seq<char>) -> bool {
    forall|i: int| 0 <= i < s.len() ==> #[trigger] s[i] != ' '
}

/// Every CRLF in `s` has text after it, and that text does not start with
/// another CRLF.
pub open spec fn crlf_guarded(s: Seq<char>) -> bool {
    forall|j: int|
        #[trigger] occurs_at(s, crlf(), j) ==> j + 2 < s.len() && !occurs_at(s, crlf(), j + 2)
}

/// A response whose wire text reads back as the same response: the status
/// fits an `i32`, no field but the body holds a CRLF, the protocol holds no
/// space, and no header key holds `": "`.
pub open spec fn wire_ready(m: ResponseView) -> bool {
    &&& i32::MIN <= m.status <= i32::MAX
    &&& free_of(m.protocol, crlf())
    &&& no_space(m.protocol)
    &&& free_of(m.message, crlf())
    &&& forall|i: int|
        0 <= i < m.headers.len() ==> free_of(#[trigger] m.headers[i].0, crlf()) && free_of(
            m.headers[i].1,
            crlf(),
        ) && free_of(m.headers[i].0, colon_space())
}

proof fn lemma_pushes(chain: Seq<Seq<HeaderView>>, added: Seq<HeaderView>)
    requires
        chain.len() == added.len() + 1,
        forall|i: int| 0 <= i < added.len() ==> #[trigger] chain[i + 1] == chain[i].push(added[i]),
    ensures
        chain.last() == chain[0] + added,
    decreases added.len(),
{
    if added.len() == 0 {
        assert(chain[0] + added =~= chain[0]);
    } else {
        let n = added.len();
        lemma_pushes(chain.drop_last(), added.drop_last());
        assert(chain[n as int] == chain[n - 1].push(added[n - 1]));
        assert(chain.drop_last().last() == chain[n - 1]);
        assert(chain[0] + added =~= (chain[0] + added.drop_last()).push(added[n - 1]));
    }
}

/// Header order: along a chain of request builders where each comes from the
/// one before by `add_header`, the last one holds the first one's headers
/// followed by the added ones in call order, duplicate keys included, and
/// its other fields unchanged.
pub proof fn lemma_request_header_order(chain: Seq<RequestView>, added: Seq<HeaderView>)
    requires
        chain.len() == added.len() + 1,
        forall|i: int|
            0 <= i < added.len() ==> #[trigger] chain[i + 1] == (RequestView {
                headers: chain[i].headers.push(added[i]),
                ..chain[i]
            }),
    ensures
        chain.last() == (RequestView { headers: chain[0].headers + added, ..chain[0] }),
    decreases added.len(),
{
    let hs = chain.map_values(|r: RequestView| r.headers);
    assert forall|i: int| 0 <= i < added.len() implies #[trigger] hs[i + 1] == hs[i].push(
        added[i],
    ) by {
        assert(chain[i + 1] == (RequestView { headers: chain[i].headers.push(added[i]), ..chain[i] }));
    }
    lemma_pushes(hs, added);
    if added.len() > 0 {
        let n = added.len();
        lemma_request_header_order(chain.drop_last(), added.drop_last());
        assert(chain[n as int] == (RequestView {
            headers: chain[n - 1].headers.push(added[n - 1]),
            ..chain[n - 1]
        }));
        assert(chain.drop_last().last() == chain[n - 1]);
    }
}

/// Header order for responses: along a chain of response builders where each
/// comes from the one before by `add_header`, the last one holds the first
/// one's headers followed by the added ones in call order, duplicate keys
/// included, and its other fields unchanged.
pub proof fn lemma_response_header_order(chain: Seq<ResponseView>, added: Seq<HeaderView>)
    requires
        chain.len() == added.len() + 1,
        forall|i: int|
            0 <= i < added.len() ==> #[trigger] chain[i + 1] == (ResponseView {
                headers: chain[i].headers.push(added[i]),
                ..chain[i]
            }),
    ensures
        chain.last() == (ResponseView { headers: chain[0].headers + added, ..chain[0] }),
    decreases added.len(),
{
    let hs = chain.map_values(|r: ResponseView| r.headers);
    assert forall|i: int| 0 <= i < added.len() implies #[trigger] hs[i + 1] == hs[i].push(
        added[i],
    ) by {
        assert(chain[i + 1] == (ResponseView { headers: chain[i].headers.push(added[i]), ..chain[i] }));
    }
    lemma_pushes(hs, added);
    if added.len() > 0 {
        let n = added.len();
        lemma_response_header_order(chain.drop_last(), added.drop_last());
        assert(chain[n as int] == (ResponseView {
            headers: chain[n - 1].headers.push(added[n - 1]),
            ..chain[n - 1]
        }));
        assert(chain.drop_last().last() == chain[n - 1]);
    }
}

/// Empty body: the wire text of a request with an empty body ends with the
/// empty line, and the body adds nothing after it.
pub proof fn lemma_empty_body(r: RequestView)
    requires
        r.body.len() == 0,
    ensures
        request_text(r) == join(
            seq![request_line(r)] + r.headers.map_values(|h: HeaderView| header_line(h)),
            crlf(),
        ) + blank_line(),
{
    let ls = seq![request_line(r)] + r.headers.map_values(|h: HeaderView| header_line(h));
    lemma_join_push(ls, crlf(), Seq::empty());
    lemma_join_push(ls.push(Seq::empty()), crlf(), r.body);
    assert(message_lines(request_line(r), r.headers, r.body) =~= ls.push(Seq::empty()).push(
        r.body,
    ));
    assert(join(ls, crlf()) + crlf() + Seq::empty() + crlf() + r.body =~= join(ls, crlf())
        + blank_line());
}

proof fn lemma_first_char(s: Seq<char>, c: char, from: int, k: int)
    requires
        0 <= from <= k < s.len(),
        s[k] == c,
        forall|j: int| from <= j < k ==> s[j] != c,
    ensures
        first_match(s, seq![c], from) == Some(k),
{
    assert(s.subrange(k, k + 1) =~= seq![c]);
    assert forall|j: int| from <= j < k implies !#[trigger] occurs_at(s, seq![c], j) by {
        if occurs_at(s, seq![c], j) {
            assert(s.subrange(j, j + 1)[0] == s[j]);
        }
    }
    lemma_first_match_is(s, seq![c], from, k);
}

proof fn lemma_crlf_at(s: Seq<char>, j: int)
    ensures
        occurs_at(s, crlf(), j) <==> (0 <= j && j + 2 <= s.len() && s[j] == '\r' && s[j + 1]
            == '\n'),
{
    if 0 <= j && j + 2 <= s.len() {
        if s[j] == '\r' && s[j + 1] == '\n' {
            assert(s.subrange(j, j + 2) =~= crlf());
        } else if occurs_at(s, crlf(), j) {
            assert(s.subrange(j, j + 2)[0] == s[j]);
            assert(s.subrange(j, j + 2)[1] == s[j + 1]);
        }
    }
}

proof fn lemma_no_cr_free(s: Seq<char>)
    requires
        no_cr(s),
    ensures
        free_of(s, crlf()),
{
    assert forall|j: int| !#[trigger] occurs_at(s, crlf(), j) by {
        lemma_crlf_at(s, j);
    }
}

/// Two texts free of CRLF, with a separator between them that holds neither
/// CR nor LF, make a text free of CRLF.
proof fn lemma_concat_free(x: Seq<char>, sep: Seq<char>, y: Seq<char>)
    requires
        free_of(x, crlf()),
        free_of(y, crlf()),
        sep.len() > 0,
        forall|i: int| 0 <= i < sep.len() ==> #[trigger] sep[i] != '\r' && sep[i] != '\n',
    ensures
        free_of(x + sep + y, crlf()),
{
    let t = x + sep + y;
    let e = x.len() + sep.len();
    assert forall|j: int| !#[trigger] occurs_at(t, crlf(), j) by {
        lemma_crlf_at(t, j);
        if occurs_at(t, crlf(), j) {
            if j + 1 < x.len() {
                lemma_crlf_at(x, j);
                assert(!occurs_at(x, crlf(), j));
            } else if j + 1 == x.len() {
                assert(t[j + 1] == sep[0]);
            } else if j < e {
                assert(t[j] == sep[j - x.len()]);
            } else {
                assert(t[j] == y[j - e]);
                assert(t[j + 1] == y[j + 1 - e]);
                lemma_crlf_at(y, j - e);
                assert(!occurs_at(y, crlf(), j - e));
            }
        }
    }
}

proof fn lemma_line_then_crlf(x: Seq<char>, y: Seq<char>)
    requires
        free_of(x, crlf()),
    ensures
        first_match(x + crlf() + y, crlf(), 0) == Some(x.len() as int),
{
    let t = x + crlf() + y;
    lemma_crlf_at(t, x.len() as int);
    assert forall|j: int| 0 <= j < x.len() implies !#[trigger] occurs_at(t, crlf(), j) by {
        lemma_crlf_at(t, j);
        if occurs_at(t, crlf(), j) {
            if j + 1 < x.len() {
                lemma_crlf_at(x, j);
                assert(!occurs_at(x, crlf(), j));
            } else {
                assert(t[j + 1] == '\r');
            }
        }
    }
    lemma_first_match_is(t, crlf(), 0, x.len() as int);
}

/// Lines free of CRLF, joined with CRLF, split back into the same lines.
proof fn lemma_split_join(ls: Seq<Seq<char>>)
    requires
        ls.len() >= 1,
        forall|i: int| 0 <= i < ls.len() ==> free_of(#[trigger] ls[i], crlf()),
    ensures
        split_on(join(ls, crlf()), crlf()) == ls,
    decreases ls.len(),
{
    assert(free_of(ls[0], crlf()));
    if ls.len() == 1 {
        lemma_first_match_none(ls[0], crlf(), 0);
        assert(seq![ls[0]] =~= ls);
    } else {
        let rest = ls.drop_first();
        assert(ls =~= seq![ls[0]] + rest);
        lemma_join_front(ls[0], rest, crlf());
        let x = ls[0];
        let t = x + crlf() + join(rest, crlf());
        lemma_line_then_crlf(x, join(rest, crlf()));
        assert(t.subrange(0, x.len() as int) =~= x);
        assert(t.subrange(x.len() + 2 as int, t.len() as int) =~= join(rest, crlf()));
        assert forall|i: int| 0 <= i < rest.len() implies free_of(#[trigger] rest[i], crlf()) by {
            assert(rest[i] == ls[i + 1]);
        }
        lemma_split_join(rest);
    }
}

proof fn lemma_join_crlf_guarded(ls: Seq<Seq<char>>)
    requires
        ls.len() >= 1,
        forall|i: int| 0 <= i < ls.len() ==> free_of(#[trigger] ls[i], crlf()) && ls[i].len() > 0,
    ensures
        crlf_guarded(join(ls, crlf())),
    decreases ls.len(),
{
    if ls.len() == 1 {
        assert(free_of(ls[0], crlf()));
    } else {
        let init = ls.drop_last();
        assert forall|i: int| 0 <= i < init.len() implies free_of(#[trigger] init[i], crlf())
            && init[i].len() > 0 by {
            assert(init[i] == ls[i]);
        }
        lemma_join_crlf_guarded(init);
        let a = join(init, crlf());
        let last = ls.last();
        assert(free_of(last, crlf()) && last.len() > 0);
        let t = a + crlf() + last;
        assert(join(ls, crlf()) == t);
        let e = a.len() + 2;
        assert forall|j: int| #[trigger] occurs_at(t, crlf(), j) implies j + 2 < t.len()
            && !occurs_at(t, crlf(), j + 2) by {
            lemma_crlf_at(t, j);
            lemma_crlf_at(t, j + 2);
            if j + 1 < a.len() {
                lemma_crlf_at(a, j);
                assert(occurs_at(a, crlf(), j));
                if j + 3 < a.len() {
                    lemma_crlf_at(a, j + 2);
                } else if j + 3 == a.len() {
                    assert(t[j + 3] == '\r');
                }
            } else if j + 1 == a.len() {
                assert(t[j + 1] == '\r');
            } else if j == a.len() {
                if last.len() >= 2 {
                    assert(t[j + 2] == last[0]);
                    assert(t[j + 3] == last[1]);
                    lemma_crlf_at(last, 0);
                    assert(!occurs_at(last, crlf(), 0));
                }
            } else if j == a.len() + 1 {
                assert(t[j] == '\n');
            } else {
                assert(t[j] == last[j - e]);
                assert(t[j + 1] == last[j + 1 - e]);
                lemma_crlf_at(last, j - e);
                assert(!occurs_at(last, crlf(), j - e));
            }
        }
    }
}

proof fn lemma_blank_line_first(h: Seq<char>, b: Seq<char>)
    requires
        crlf_guarded(h),
    ensures
        first_match(h + blank_line() + b, blank_line(), 0) == Some(h.len() as int),
{
    let t = h + blank_line() + b;
    assert(t.subrange(h.len() as int, h.len() + 4 as int) =~= blank_line());
    assert forall|j: int| 0 <= j < h.len() implies !#[trigger] occurs_at(t, blank_line(), j) by {
        if occurs_at(t, blank_line(), j) {
            let w = t.subrange(j, j + 4);
            assert(w[0] == t[j] && w[1] == t[j + 1] && w[2] == t[j + 2] && w[3] == t[j + 3]);
            if j + 1 < h.len() {
                assert(h[j] == '\r' && h[j + 1] == '\n');
                lemma_crlf_at(h, j);
                assert(occurs_at(h, crlf(), j));
                if j + 3 < h.len() {
                    assert(h[j + 2] == t[j + 2] && h[j + 3] == t[j + 3]);
                    lemma_crlf_at(h, j + 2);
                } else {
                    assert(t[j + 3] == '\r');
                }
            } else {
                assert(t[j + 1] == '\r');
            }
        }
    }
    lemma_first_match_is(t, blank_line(), 0, h.len() as int);
}

proof fn lemma_header_line_read(h: HeaderView)
    requires
        free_of(h.0, colon_space()),
    ensures
        header_of(header_line(h)) == Some(h),
{
    let k = h.0;
    let t = header_line(h);
    assert(t.subrange(k.len() as int, k.len() + 2 as int) =~= colon_space());
    assert forall|j: int| 0 <= j < k.len() implies !#[trigger] occurs_at(t, colon_space(), j) by {
        if occurs_at(t, colon_space(), j) {
            if j + 2 <= k.len() {
                assert(t.subrange(j, j + 2) =~= k.subrange(j, j + 2));
                assert(occurs_at(k, colon_space(), j));
            } else {
                assert(t.subrange(j, j + 2)[1] == t[j + 1]);
                assert(t[j + 1] == ':');
            }
        }
    }
    lemma_first_match_is(t, colon_space(), 0, k.len() as int);
    assert(t.subrange(0, k.len() as int) =~= k);
    assert(t.subrange(k.len() + 2 as int, t.len() as int) =~= h.1);
}

proof fn lemma_decimal_chars(n: int)
    requires
        i32::MIN <= n <= i32::MAX,
    ensures
        no_cr(decimal(n)),
        no_space(decimal(n)),
{
    let d = decimal(n);
    if n < 0 {
        lemma_nat_digits((-n) as nat);
        assert forall|i: int| 0 <= i < d.len() implies #[trigger] d[i] != '\r' && d[i] != ' ' by {
            if i > 0 {
                assert(d[i] == nat_digits((-n) as nat)[i - 1]);
                assert(is_digit(nat_digits((-n) as nat)[i - 1]));
            }
        }
    } else {
        lemma_nat_digits(n as nat);
        assert forall|i: int| 0 <= i < d.len() implies #[trigger] d[i] != '\r' && d[i] != ' ' by {
            assert(is_digit(d[i]));
        }
    }
}

proof fn lemma_status_line_read(m: ResponseView)
    requires
        wire_ready(m),
    ensures
        status_parts(status_line(m)) == Some((m.protocol, decimal(m.status), m.message)),
        free_of(status_line(m), crlf()),
        status_line(m).len() > 0,
{
    let p = m.protocol;
    let d = decimal(m.status);
    let l = status_line(m);
    lemma_decimal_chars(m.status);
    assert(l =~= p + seq![' '] + d + seq![' '] + m.message);
    let a = p.len() as int;
    let b = a + 1 + d.len();
    assert(l[a] == ' ');
    assert forall|j: int| 0 <= j < a implies l[j] != ' ' by {
        assert(l[j] == p[j]);
    }
    lemma_first_char(l, ' ', 0, a);
    assert(l[b] == ' ');
    assert forall|j: int| a + 1 <= j < b implies l[j] != ' ' by {
        assert(l[j] == d[j - a - 1]);
    }
    lemma_first_char(l, ' ', a + 1, b);
    assert(l.subrange(0, a) =~= p);
    assert(l.subrange(a + 1, b) =~= d);
    assert(l.subrange(b + 1, l.len() as int) =~= m.message);
    lemma_no_cr_free(d);
    lemma_concat_free(p, seq![' '], d);
    lemma_concat_free(p + seq![' '] + d, seq![' '], m.message);
}

/// Round trip: a response written as wire text (status line, headers and an
/// empty line, joined with CRLF, then the body) parses back to the same
/// protocol, status, reason phrase, headers and body.
pub proof fn lemma_parse_round_trip(m: ResponseView)
    requires
        wire_ready(m),
    ensures
        parse_spec(response_wire_text(m)) == Ok::<ResponseView, ResponseError>(m),
{
    let sl = status_line(m);
    let hl = m.headers.map_values(|h: HeaderView| header_line(h));
    let ls = seq![sl] + hl;
    lemma_status_line_read(m);
    assert forall|i: int| 0 <= i < ls.len() implies free_of(#[trigger] ls[i], crlf())
        && ls[i].len() > 0 by {
        if i > 0 {
            let h = m.headers[i - 1];
            assert(ls[i] == header_line(h));
            assert(free_of(h.0, crlf()) && free_of(h.1, crlf()));
            lemma_concat_free(h.0, colon_space(), h.1);
        }
    }
    let head = join(ls, crlf());
    lemma_join_push(ls, crlf(), Seq::empty());
    lemma_join_push(ls.push(Seq::empty()), crlf(), m.body);
    assert(message_lines(sl, m.headers, m.body) =~= ls.push(Seq::empty()).push(m.body));
    let t = response_wire_text(m);
    assert(t =~= head + blank_line() + m.body);
    lemma_join_crlf_guarded(ls);
    lemma_blank_line_first(head, m.body);
    assert(t.subrange(0, head.len() as int) =~= head);
    assert(t.subrange(head.len() + 4 as int, t.len() as int) =~= m.body);
    lemma_split_join(ls);
    assert(ls.drop_first() =~= hl);
    lemma_decimal_round_trip(m.status as i32);
    assert forall|i: int| 0 <= i < hl.len() implies #[trigger] header_of(hl[i]) == Some(
        m.headers[i],
    ) by {
        lemma_header_line_read(m.headers[i]);
    }
    assert(hl.map_values(|l: Seq<char>| header_of(l)->0) =~= m.headers);
    assert(headers_of(hl) == Some(m.headers));
}

} // verus!
