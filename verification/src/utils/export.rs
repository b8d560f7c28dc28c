//! Exporting a request as shell-ready text.
use vstd::prelude::*;
use crate::model::{BodyType, HttpRequest, KeyValue, KeyValueView, rows_view};
use crate::text::{chars_to_string, string_to_chars};

verus! {

/// A single-quoted shell string's body: each quote becomes `'\''`.
pub open spec fn curl_escape(s: Seq<char>) -> Seq<char>
    decreases s.len(),
{
    if s.len() == 0 {
        Seq::empty()
    } else {
        curl_escape(s.drop_last()) + (if s.last() == '\'' {
            seq!['\'', '\\', '\'', '\'']
        } else {
            seq![s.last()]
        })
    }
}

/// The `-H` argument for one participating header row.
pub open spec fn curl_header_part(kv: KeyValueView) -> Seq<char> {
    seq![' ', '\\', '\n', ' ', ' ', '-', 'H', ' ', '\''] + kv.key + seq![':', ' '] + kv.value
        + seq!['\'']
}

/// The `-H` arguments for the participating header rows, in order.
pub open spec fn curl_headers(rows: Seq<KeyValueView>) -> Seq<char>
    decreases rows.len(),
{
    if rows.len() == 0 {
        Seq::empty()
    } else {
        curl_headers(rows.drop_last()) + (if rows.last().enabled && rows.last().key.len() > 0 {
            curl_header_part(rows.last())
        } else {
            Seq::empty()
        })
    }
}

/// The `-d` argument, present when the body is non-empty and a body
/// type is chosen, whatever the method.
pub open spec fn curl_body(r: crate::model::RequestView) -> Seq<char> {
    if r.body.len() > 0 && r.body_type != BodyType::NoBody {
        seq![' ', '\\', '\n', ' ', ' ', '-', 'd', ' ', '\''] + curl_escape(r.body) + seq!['\'']
    } else {
        Seq::empty()
    }
}

/// The whole command.
pub open spec fn to_curl_spec(r: crate::model::RequestView, url: Seq<char>) -> Seq<char> {
    seq!['c', 'u', 'r', 'l', ' ', '-', 'X', ' '] + r.method.label_spec() + seq![' ', '\''] + url
        + seq!['\''] + curl_headers(r.headers) + curl_body(r)
}

/// Renders the request as a curl command against the given final URL.
#[verifier::rlimit(100)]
pub fn to_curl(request: &HttpRequest, full_url: &str) -> (r: String)
    ensures
        r@ == to_curl_spec(request@, full_url@),
{
    let mut out: Vec<char> = Vec::new();
    out.push('c');
    out.push('u');
    out.push('r');
    out.push('l');
    out.push(' ');
    out.push('-');
    out.push('X');
    out.push(' ');
    let ghost head = seq!['c', 'u', 'r', 'l', ' ', '-', 'X', ' '];
    proof {
        assert(out@ =~= head);
    }
    let label = string_to_chars(request.method.label());
    let mut k: usize = 0;
    while k < label.len()
        invariant
            k <= label@.len(),
            label@ == request.method.label_spec(),
            out@ == head + label@.subrange(0, k as int),
        decreases label@.len() - k,
    {
        out.push(label[k]);
        proof {
            assert(out@ =~= head + label@.subrange(0, k + 1));
        }
        k = k + 1;
    }
    proof {
        assert(label@.subrange(0, label@.len() as int) =~= label@);
    }
    out.push(' ');
    out.push('\'');
    let urlcs = string_to_chars(full_url);
    let ghost head2 = head + request.method.label_spec() + seq![' ', '\''];
    proof {
        assert(out@ =~= head2);
    }
    let mut k2: usize = 0;
    while k2 < urlcs.len()
        invariant
            k2 <= urlcs@.len(),
            urlcs@ == full_url@,
            out@ == head2 + full_url@.subrange(0, k2 as int),
        decreases urlcs@.len() - k2,
    {
        out.push(urlcs[k2]);
        proof {
            assert(out@ =~= head2 + full_url@.subrange(0, k2 + 1));
        }
        k2 = k2 + 1;
    }
    proof {
        assert(full_url@.subrange(0, full_url@.len() as int) =~= full_url@);
    }
    out.push('\'');
    let ghost head3 = head2 + full_url@ + seq!['\''];
    proof {
        assert(out@ =~= head3);
    }
    let n = request.headers.len();
    let mut h: usize = 0;
    while h < n
        invariant
            h <= n == request.headers@.len(),
            out@ == head3 + curl_headers(rows_view(request.headers@.subrange(0, h as int))),
        decreases n - h,
    {
        let ghost prev = rows_view(request.headers@.subrange(0, h as int));
        let ghost cur = rows_view(request.headers@.subrange(0, h as int + 1));
        proof {
            assert(cur.drop_last() =~= prev);
            assert(cur.last() == request.headers@[h as int]@);
        }
        let row = &request.headers[h];
        if row.enabled && !row.key.as_str().is_empty() {
            push_header_part(&mut out, row);
            proof {
                assert(out@ =~= head3 + curl_headers(cur));
            }
        } else {
            proof {
                assert(curl_headers(cur) =~= curl_headers(prev));
            }
        }
        h = h + 1;
    }
    proof {
        assert(request.headers@.subrange(0, n as int) =~= request.headers@);
        assert(rows_view(request.headers@) =~= request@.headers);
    }
    let ghost head4 = head3 + curl_headers(request@.headers);
    if !request.body.as_str().is_empty() && request.body_type != BodyType::NoBody {
        out.push(' ');
        out.push('\\');
        out.push('\n');
        out.push(' ');
        out.push(' ');
        out.push('-');
        out.push('d');
        out.push(' ');
        out.push('\'');
        let ghost head5 = head4 + seq![' ', '\\', '\n', ' ', ' ', '-', 'd', ' ', '\''];
        proof {
            assert(out@ =~= head5);
        }
        let body = string_to_chars(request.body.as_str());
        let m = body.len();
        let mut b: usize = 0;
        while b < m
            invariant
                b <= m == body@.len(),
                body@ == request.body@,
                out@ == head5 + curl_escape(request.body@.subrange(0, b as int)),
            decreases m - b,
        {
            let ghost prevs = request.body@.subrange(0, b as int);
            let c = body[b];
            if c == '\'' {
                out.push('\'');
                out.push('\\');
                out.push('\'');
                out.push('\'');
            } else {
                out.push(c);
            }
            proof {
                assert(request.body@.subrange(0, b as int + 1).drop_last() =~= prevs);
                assert(out@ =~= head5 + curl_escape(request.body@.subrange(0, b + 1)));
            }
            b = b + 1;
        }
        out.push('\'');
        proof {
            assert(request.body@.subrange(0, m as int) =~= request.body@);
            assert(out@ =~= to_curl_spec(request@, full_url@));
        }
    } else {
        proof {
            assert(curl_body(request@) =~= Seq::<char>::empty());
            assert(out@ =~= to_curl_spec(request@, full_url@));
        }
    }
    chars_to_string(&out)
}

fn push_header_part(out: &mut Vec<char>, row: &KeyValue)
    ensures
        final(out)@ == old(out)@ + curl_header_part(row@),
{
    out.push(' ');
    out.push('\\');
    out.push('\n');
    out.push(' ');
    out.push(' ');
    out.push('-');
    out.push('H');
    out.push(' ');
    out.push('\'');
    let key = string_to_chars(row.key.as_str());
    let mut k: usize = 0;
    let ghost head = old(out)@ + seq![' ', '\\', '\n', ' ', ' ', '-', 'H', ' ', '\''];
    proof {
        assert(out@ =~= head);
    }
    while k < key.len()
        invariant
            k <= key@.len(),
            key@ == row.key@,
            out@ == head + row.key@.subrange(0, k as int),
        decreases key@.len() - k,
    {
        out.push(key[k]);
        proof {
            assert(out@ =~= head + row.key@.subrange(0, k + 1));
        }
        k = k + 1;
    }
    out.push(':');
    out.push(' ');
    let value = string_to_chars(row.value.as_str());
    let ghost head2 = head + row.key@ + seq![':', ' '];
    proof {
        assert(row.key@.subrange(0, row.key@.len() as int) =~= row.key@);
        assert(out@ =~= head2);
    }
    let mut v: usize = 0;
    while v < value.len()
        invariant
            v <= value@.len(),
            value@ == row.value@,
            out@ == head2 + row.value@.subrange(0, v as int),
        decreases value@.len() - v,
    {
        out.push(value[v]);
        proof {
            assert(out@ =~= head2 + row.value@.subrange(0, v + 1));
        }
        v = v + 1;
    }
    out.push('\'');
    proof {
        assert(row.value@.subrange(0, row.value@.len() as int) =~= row.value@);
        assert(final(out)@ =~= old(out)@ + curl_header_part(row@));
    }
}

/// One `name: value` line per participating header row, joined with
/// newlines.
pub open spec fn header_line(kv: KeyValueView) -> Seq<char> {
    kv.key + seq![':', ' '] + kv.value
}

pub open spec fn headers_to_string_spec(rows: Seq<KeyValueView>) -> Seq<char>
    decreases rows.len(),
{
    if rows.len() == 0 {
        Seq::empty()
    } else {
        let rest = headers_to_string_spec(rows.drop_last());
        if rows.last().enabled && rows.last().key.len() > 0 {
            if rest.len() == 0 {
                header_line(rows.last())
            } else {
                rest + seq!['\n'] + header_line(rows.last())
            }
        } else {
            rest
        }
    }
}

/// Renders the participating header rows as lines of `name: value`.
pub fn headers_to_string(headers: &Vec<KeyValue>) -> (r: String)
    ensures
        r@ == headers_to_string_spec(rows_view(headers@)),
{
    let mut out: Vec<char> = Vec::new();
    let n = headers.len();
    let mut h: usize = 0;
    while h < n
        invariant
            h <= n == headers@.len(),
            out@ == headers_to_string_spec(rows_view(headers@.subrange(0, h as int))),
        decreases n - h,
    {
        let ghost prev = rows_view(headers@.subrange(0, h as int));
        let ghost cur = rows_view(headers@.subrange(0, h as int + 1));
        proof {
            assert(cur.drop_last() =~= prev);
            assert(cur.last() == headers@[h as int]@);
        }
        let row = &headers[h];
        if row.enabled && !row.key.as_str().is_empty() {
            if out.len() > 0 {
                out.push('\n');
            }
            push_header_line(&mut out, row);
            proof {
                assert(out@ =~= headers_to_string_spec(cur));
            }
        } else {
            proof {
                assert(headers_to_string_spec(cur) =~= headers_to_string_spec(prev));
            }
        }
        h = h + 1;
    }
    proof {
        assert(headers@.subrange(0, n as int) =~= headers@);
    }
    chars_to_string(&out)
}

fn push_header_line(out: &mut Vec<char>, row: &KeyValue)
    ensures
        final(out)@ == old(out)@ + header_line(row@),
{
    let key = string_to_chars(row.key.as_str());
    let mut k: usize = 0;
    while k < key.len()
        invariant
            k <= key@.len(),
            key@ == row.key@,
            out@ == old(out)@ + row.key@.subrange(0, k as int),
        decreases key@.len() - k,
    {
        out.push(key[k]);
        proof {
            assert(out@ =~= old(out)@ + row.key@.subrange(0, k + 1));
        }
        k = k + 1;
    }
    out.push(':');
    out.push(' ');
    let value = string_to_chars(row.value.as_str());
    let ghost head = old(out)@ + row.key@ + seq![':', ' '];
    proof {
        assert(row.key@.subrange(0, row.key@.len() as int) =~= row.key@);
        assert(out@ =~= head);
    }
    let mut v: usize = 0;
    while v < value.len()
        invariant
            v <= value@.len(),
            value@ == row.value@,
            out@ == head + row.value@.subrange(0, v as int),
        decreases value@.len() - v,
    {
        out.push(value[v]);
        proof {
            assert(out@ =~= head + row.value@.subrange(0, v + 1));
        }
        v = v + 1;
    }
    proof {
        assert(row.value@.subrange(0, row.value@.len() as int) =~= row.value@);
        assert(final(out)@ =~= old(out)@ + header_line(row@));
    }
}

} // verus!
