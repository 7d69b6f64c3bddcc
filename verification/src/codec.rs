use vstd::prelude::*;
use vstd::string::*;
use crate::errors::ConfigError;
use crate::registry::{Config, ConfigView, Runtime, RuntimeView};
use crate::str_util::push_char;

verus! {

// ---------------------------------------------------------------------------
// The canonical encoding of a registry.
//
// A registry is persisted as one line of JSON-shaped text:
//
//   {"current":null,"runtimes":[{"name":"a","path":"/p","capabilities":["node"]}]}
//
// Strings escape the quote and the backslash with a backslash and carry
// every other character verbatim.
// ---------------------------------------------------------------------------
/// The escaped form of one character inside a quoted string.
pub open spec fn esc_char(c: char) -> Seq<char> {
    if c == '"' || c == '\\' {
        seq!['\\', c]
    } else {
        seq![c]
    }
}

/// The escaped body of a quoted string, without the surrounding quotes.
pub open spec fn enc_str_body(t: Seq<char>) -> Seq<char>
    decreases t.len(),
{
    if t.len() == 0 {
        Seq::empty()
    } else {
        esc_char(t[0]) + enc_str_body(t.skip(1))
    }
}

/// A quoted string.
pub open spec fn enc_string(t: Seq<char>) -> Seq<char> {
    seq!['"'] + enc_str_body(t) + seq!['"']
}

/// Comma-separated quoted strings, without the surrounding brackets.
pub open spec fn enc_str_list(l: Seq<Seq<char>>) -> Seq<char>
    decreases l.len(),
{
    if l.len() == 0 {
        Seq::empty()
    } else if l.len() == 1 {
        enc_string(l[0])
    } else {
        enc_string(l[0]) + seq![','] + enc_str_list(l.skip(1))
    }
}

/// One runtime entry: its name, path and capability list, as a record.
pub open spec fn enc_runtime(v: RuntimeView) -> Seq<char> {
    "{\"name\":"@ + enc_string(v.name) + ",\"path\":"@ + enc_string(v.path)
        + ",\"capabilities\":["@ + enc_str_list(v.capabilities) + seq![']'] + seq!['}']
}

/// Comma-separated runtime records, without the surrounding brackets.
pub open spec fn enc_rt_list(l: Seq<RuntimeView>) -> Seq<char>
    decreases l.len(),
{
    if l.len() == 0 {
        Seq::empty()
    } else if l.len() == 1 {
        enc_runtime(l[0])
    } else {
        enc_runtime(l[0]) + seq![','] + enc_rt_list(l.skip(1))
    }
}

/// The selected name: a quoted string, or `null` when nothing is selected.
pub open spec fn enc_current(c: Option<Seq<char>>) -> Seq<char> {
    match c {
        None => "null"@,
        Some(n) => enc_string(n),
    }
}

/// The whole registry document.
pub open spec fn enc_config(v: ConfigView) -> Seq<char> {
    "{\"current\":"@ + enc_current(v.current) + ",\"runtimes\":["@ + enc_rt_list(v.runtimes)
        + seq![']'] + seq!['}']
}

// ---------------------------------------------------------------------------
// The parser, as a deterministic recursive descent over the text.  Each
// function takes the position it starts at and yields the parsed value and
// the position one past what it consumed, or nothing when the text does not
// fit the format there.
// ---------------------------------------------------------------------------
/// Whether the literal `lit` stands at position `i` of `s`.
pub open spec fn lit_at(s: Seq<char>, i: int, lit: Seq<char>) -> bool {
    0 <= i && i + lit.len() <= s.len() && s.subrange(i, i + lit.len()) == lit
}

/// The body of a quoted string, read from just after the opening quote up
/// to and including the closing quote.
pub open spec fn sp_str_body(s: Seq<char>, i: int) -> Option<(Seq<char>, int)>
    decreases s.len() - i,
    when 0 <= i <= s.len()
{
    if i >= s.len() {
        None
    } else if s[i] == '"' {
        Some((Seq::empty(), i + 1))
    } else if s[i] == '\\' {
        if i + 1 < s.len() && (s[i + 1] == '"' || s[i + 1] == '\\') {
            match sp_str_body(s, i + 2) {
                Some((t, j)) => Some((seq![s[i + 1]] + t, j)),
                None => None,
            }
        } else {
            None
        }
    } else {
        match sp_str_body(s, i + 1) {
            Some((t, j)) => Some((seq![s[i]] + t, j)),
            None => None,
        }
    }
}

/// A quoted string, read from its opening quote.
pub open spec fn sp_string(s: Seq<char>, i: int) -> Option<(Seq<char>, int)> {
    if 0 <= i < s.len() && s[i] == '"' {
        sp_str_body(s, i + 1)
    } else {
        None
    }
}

/// A parse of a string body stops strictly past where it started and
/// within the text.
pub proof fn lemma_sp_str_body_len(s: Seq<char>, i: int)
    requires
        0 <= i <= s.len(),
    ensures
        sp_str_body(s, i) matches Some(tj) ==> i < tj.1 <= s.len(),
    decreases s.len() - i,
{
    if i < s.len() {
        if s[i] == '\\' {
            if i + 1 < s.len() && (s[i + 1] == '"' || s[i + 1] == '\\') {
                lemma_sp_str_body_len(s, i + 2);
            }
        } else if s[i] != '"' {
            lemma_sp_str_body_len(s, i + 1);
        }
    }
}

/// A parse of a quoted string stops strictly past where it started and
/// within the text.
pub proof fn lemma_sp_string_len(s: Seq<char>, i: int)
    ensures
        sp_string(s, i) matches Some(tj) ==> i + 1 < tj.1 <= s.len(),
{
    if 0 <= i < s.len() && s[i] == '"' {
        lemma_sp_str_body_len(s, i + 1);
    }
}

/// A bracketed list of quoted strings, read from just after the opening
/// bracket up to and including the closing bracket.
pub open spec fn sp_str_list(s: Seq<char>, i: int) -> Option<(Seq<Seq<char>>, int)>
    decreases s.len() - i,
    when 0 <= i <= s.len()
    via sp_str_list_dec
{
    if i >= s.len() {
        None
    } else if s[i] == ']' {
        Some((Seq::empty(), i + 1))
    } else {
        match sp_string(s, i) {
            Some((t, j)) => {
                if j < s.len() && s[j] == ']' {
                    Some((seq![t], j + 1))
                } else if j < s.len() && s[j] == ',' {
                    match sp_str_list(s, j + 1) {
                        Some((l, k)) => Some((seq![t] + l, k)),
                        None => None,
                    }
                } else {
                    None
                }
            },
            None => None,
        }
    }
}

#[via_fn]
proof fn sp_str_list_dec(s: Seq<char>, i: int) {
    lemma_sp_string_len(s, i);
}

/// A parse of a string list stops strictly past where it started and
/// within the text.
pub proof fn lemma_sp_str_list_len(s: Seq<char>, i: int)
    requires
        0 <= i <= s.len(),
    ensures
        sp_str_list(s, i) matches Some(lj) ==> i < lj.1 <= s.len(),
    decreases s.len() - i,
{
    lemma_sp_string_len(s, i);
    if i < s.len() && s[i] != ']' {
        match sp_string(s, i) {
            Some((t, j)) => {
                if j < s.len() && s[j] == ',' {
                    lemma_sp_str_list_len(s, j + 1);
                }
            },
            None => {},
        }
    }
}

/// One runtime record, read from its opening brace.
pub open spec fn sp_runtime(s: Seq<char>, i: int) -> Option<(RuntimeView, int)> {
    if lit_at(s, i, "{\"name\":"@) {
        match sp_string(s, i + "{\"name\":"@.len()) {
            Some((name, j1)) => {
                if lit_at(s, j1, ",\"path\":"@) {
                    match sp_string(s, j1 + ",\"path\":"@.len()) {
                        Some((path, j2)) => {
                            if lit_at(s, j2, ",\"capabilities\":["@) {
                                match sp_str_list(s, j2 + ",\"capabilities\":["@.len()) {
                                    Some((caps, j3)) => {
                                        if j3 < s.len() && s[j3] == '}' {
                                            Some(
                                                (
                                                    RuntimeView {
                                                        name,
                                                        path,
                                                        capabilities: caps,
                                                    },
                                                    j3 + 1,
                                                ),
                                            )
                                        } else {
                                            None
                                        }
                                    },
                                    None => None,
                                }
                            } else {
                                None
                            }
                        },
                        None => None,
                    }
                } else {
                    None
                }
            },
            None => None,
        }
    } else {
        None
    }
}

/// A parse of a runtime record stops strictly past where it started and
/// within the text.
pub proof fn lemma_sp_runtime_len(s: Seq<char>, i: int)
    ensures
        sp_runtime(s, i) matches Some(vj) ==> i < vj.1 <= s.len(),
{
    if lit_at(s, i, "{\"name\":"@) {
        lemma_sp_string_len(s, i + "{\"name\":"@.len() as int);
        match sp_string(s, i + "{\"name\":"@.len()) {
            Some((name, j1)) => {
                lemma_sp_string_len(s, j1 + ",\"path\":"@.len() as int);
                if lit_at(s, j1, ",\"path\":"@) {
                    match sp_string(s, j1 + ",\"path\":"@.len()) {
                        Some((path, j2)) => {
                            if lit_at(s, j2, ",\"capabilities\":["@) {
                                lemma_sp_str_list_len(s, j2 + ",\"capabilities\":["@.len() as int);
                            }
                        },
                        None => {},
                    }
                }
            },
            None => {},
        }
    }
}

/// A bracketed list of runtime records, read from just after the opening
/// bracket up to and including the closing bracket.
pub open spec fn sp_rt_list(s: Seq<char>, i: int) -> Option<(Seq<RuntimeView>, int)>
    decreases s.len() - i,
    when 0 <= i <= s.len()
    via sp_rt_list_dec
{
    if i >= s.len() {
        None
    } else if s[i] == ']' {
        Some((Seq::empty(), i + 1))
    } else {
        match sp_runtime(s, i) {
            Some((v, j)) => {
                if j < s.len() && s[j] == ']' {
                    Some((seq![v], j + 1))
                } else if j < s.len() && s[j] == ',' {
                    match sp_rt_list(s, j + 1) {
                        Some((l, k)) => Some((seq![v] + l, k)),
                        None => None,
                    }
                } else {
                    None
                }
            },
            None => None,
        }
    }
}

#[via_fn]
proof fn sp_rt_list_dec(s: Seq<char>, i: int) {
    lemma_sp_runtime_len(s, i);
}

/// The selected name: a quoted string or the literal `null`.
pub open spec fn sp_current(s: Seq<char>, i: int) -> Option<(Option<Seq<char>>, int)> {
    if 0 <= i < s.len() && s[i] == '"' {
        match sp_string(s, i) {
            Some((t, j)) => Some((Some(t), j)),
            None => None,
        }
    } else if lit_at(s, i, "null"@) {
        Some((None, i + "null"@.len() as int))
    } else {
        None
    }
}

/// The whole registry document; the parse must consume the text exactly.
pub open spec fn sp_config(s: Seq<char>) -> Option<ConfigView> {
    if lit_at(s, 0, "{\"current\":"@) {
        match sp_current(s, "{\"current\":"@.len() as int) {
            Some((cur, i)) => {
                if lit_at(s, i, ",\"runtimes\":["@) {
                    match sp_rt_list(s, i + ",\"runtimes\":["@.len()) {
                        Some((l, j)) => {
                            if j < s.len() && s[j] == '}' && j + 1 == s.len() {
                                Some(ConfigView { current: cur, runtimes: l })
                            } else {
                                None
                            }
                        },
                        None => None,
                    }
                } else {
                    None
                }
            },
            None => None,
        }
    } else {
        None
    }
}

// ---------------------------------------------------------------------------
// The executable encoder.
// ---------------------------------------------------------------------------
/// Appends the escaped body of `t` from position `i` on.
fn write_str_body(out: &mut String, t: &str, i: usize)
    requires
        i <= t@.len(),
    ensures
        final(out)@ == old(out)@ + enc_str_body(t@.skip(i as int)),
    decreases t@.len() - i,
{
    let n = t.unicode_len();
    if i < n {
        let c = t.get_char(i);
        if c == '"' || c == '\\' {
            push_char(out, '\\');
            push_char(out, c);
        } else {
            push_char(out, c);
        }
        write_str_body(out, t, i + 1);
        proof {
            assert(t@.skip(i as int).len() > 0);
            assert(t@.skip(i as int)[0] == t@[i as int]);
            assert(t@.skip(i as int).skip(1) =~= t@.skip(i + 1));
            assert(enc_str_body(t@.skip(i as int)) == esc_char(t@[i as int]) + enc_str_body(
                t@.skip(i + 1),
            ));
            assert(out@ =~= old(out)@ + enc_str_body(t@.skip(i as int)));
        }
    } else {
        proof {
            assert(t@.skip(i as int).len() == 0);
            assert(out@ =~= old(out)@ + enc_str_body(t@.skip(i as int)));
        }
    }
}

/// Appends the quoted form of `t`.
fn write_string(out: &mut String, t: &str)
    ensures
        final(out)@ == old(out)@ + enc_string(t@),
{
    push_char(out, '"');
    write_str_body(out, t, 0);
    push_char(out, '"');
    proof {
        assert(t@.skip(0) =~= t@);
        assert(out@ =~= old(out)@ + enc_string(t@));
    }
}

/// Appends the comma-separated quoted strings of `l` from index `i` on.
fn write_str_list(out: &mut String, l: &Vec<String>, i: usize)
    requires
        i <= l@.len(),
    ensures
        final(out)@ == old(out)@ + enc_str_list(l.deep_view().skip(i as int)),
    decreases l@.len() - i,
{
    let n = l.len();
    if i < n {
        write_string(out, l[i].as_str());
        if i + 1 < n {
            push_char(out, ',');
        }
        write_str_list(out, l, i + 1);
        proof {
            let dv = l.deep_view();
            assert(dv.skip(i as int)[0] == dv[i as int]);
            assert(dv.skip(i as int).skip(1) =~= dv.skip(i + 1));
            if i + 1 == n {
                assert(dv.skip(i as int).len() == 1);
                assert(out@ =~= old(out)@ + enc_str_list(dv.skip(i as int)));
            } else {
                assert(dv.skip(i as int).len() > 1);
                assert(enc_str_list(dv.skip(i as int)) == enc_string(dv[i as int]) + seq![',']
                    + enc_str_list(dv.skip(i + 1)));
                assert(out@ =~= old(out)@ + enc_str_list(dv.skip(i as int)));
            }
        }
    } else {
        proof {
            assert(l.deep_view().skip(i as int).len() == 0);
            assert(out@ =~= old(out)@ + enc_str_list(l.deep_view().skip(i as int)));
        }
    }
}

/// Appends one runtime record.
fn write_runtime(out: &mut String, rt: &Runtime)
    ensures
        final(out)@ == old(out)@ + enc_runtime(rt@),
{
    out.append("{\"name\":");
    write_string(out, rt.name.as_str());
    out.append(",\"path\":");
    write_string(out, rt.path.as_str());
    out.append(",\"capabilities\":[");
    write_str_list(out, &rt.capabilities, 0);
    push_char(out, ']');
    push_char(out, '}');
    proof {
        assert(rt.capabilities.deep_view().skip(0) =~= rt.capabilities.deep_view());
        assert(out@ =~= old(out)@ + enc_runtime(rt@));
    }
}

/// Appends the comma-separated runtime records of `l` from index `i` on.
fn write_rt_list(out: &mut String, l: &Vec<Runtime>, i: usize)
    requires
        i <= l@.len(),
    ensures
        final(out)@ == old(out)@ + enc_rt_list(l.deep_view().skip(i as int)),
    decreases l@.len() - i,
{
    let n = l.len();
    if i < n {
        write_runtime(out, &l[i]);
        if i + 1 < n {
            push_char(out, ',');
        }
        write_rt_list(out, l, i + 1);
        proof {
            let dv = l.deep_view();
            assert(dv.skip(i as int)[0] == dv[i as int]);
            assert(dv.skip(i as int).skip(1) =~= dv.skip(i + 1));
            if i + 1 == n {
                assert(dv.skip(i as int).len() == 1);
                assert(out@ =~= old(out)@ + enc_rt_list(dv.skip(i as int)));
            } else {
                assert(dv.skip(i as int).len() > 1);
                assert(enc_rt_list(dv.skip(i as int)) == enc_runtime(dv[i as int]) + seq![',']
                    + enc_rt_list(dv.skip(i + 1)));
                assert(out@ =~= old(out)@ + enc_rt_list(dv.skip(i as int)));
            }
        }
    } else {
        proof {
            assert(l.deep_view().skip(i as int).len() == 0);
            assert(out@ =~= old(out)@ + enc_rt_list(l.deep_view().skip(i as int)));
        }
    }
}

/// Renders the registry in its canonical persisted form.
pub fn encode_config(cfg: &Config) -> (r: String)
    ensures
        r@ == enc_config(cfg@),
{
    let mut out = String::new();
    out.append("{\"current\":");
    match &cfg.current {
        None => {
            out.append("null");
        },
        Some(name) => {
            write_string(&mut out, name.as_str());
        },
    }
    out.append(",\"runtimes\":[");
    write_rt_list(&mut out, &cfg.runtimes, 0);
    push_char(&mut out, ']');
    push_char(&mut out, '}');
    proof {
        assert(cfg.runtimes.deep_view().skip(0) =~= cfg.runtimes.deep_view());
        assert(out@ =~= enc_config(cfg@));
    }
    out
}

// ---------------------------------------------------------------------------
// The executable parser, mirroring the recursive descent above.
// ---------------------------------------------------------------------------
/// Looks for the literal `lit` at position `i` and yields the position just
/// past it.
fn match_lit(s: &str, i: usize, lit: &str) -> (r: Option<usize>)
    ensures
        match r {
            Some(j) => lit_at(s@, i as int, lit@) && j == i + lit@.len(),
            None => !lit_at(s@, i as int, lit@),
        },
{
    let n = s.unicode_len();
    let llen = lit.unicode_len();
    if i > n || n - i < llen {
        return None;
    }
    let mut k: usize = 0;
    while k < llen
        invariant
            0 <= k <= llen,
            i + llen <= n,
            n == s@.len(),
            llen == lit@.len(),
            forall|m: int| 0 <= m < k ==> s@[i + m] == lit@[m],
        decreases llen - k,
    {
        if s.get_char(i + k) != lit.get_char(k) {
            assert(s@.subrange(i as int, i + lit@.len()) != lit@) by {
                assert(s@.subrange(i as int, i + lit@.len())[k as int] == s@[i + k]);
            }
            return None;
        }
        k += 1;
    }
    proof {
        assert(s@.subrange(i as int, i + lit@.len()) =~= lit@);
    }
    Some(i + llen)
}

/// Reads a string body from just after its opening quote, appending the
/// characters it denotes to `out`, and yields the position just past the
/// closing quote.
fn parse_str_body(s: &str, i: usize, out: &mut String) -> (r: Option<usize>)
    requires
        i <= s@.len(),
    ensures
        match r {
            Some(j) => (sp_str_body(s@, i as int) matches Some(tj) && final(out)@ == old(out)@
                + tj.0 && j == tj.1 && i < j <= s@.len()),
            None => sp_str_body(s@, i as int) is None,
        },
    decreases s@.len() - i,
{
    let n = s.unicode_len();
    if i >= n {
        return None;
    }
    let c = s.get_char(i);
    if c == '"' {
        proof {
            assert(out@ =~= old(out)@ + Seq::<char>::empty());
        }
        return Some(i + 1);
    }
    if c == '\\' {
        if i + 1 >= n {
            return None;
        }
        let c2 = s.get_char(i + 1);
        if c2 == '"' || c2 == '\\' {
            push_char(out, c2);
            let res = parse_str_body(s, i + 2, out);
            match res {
                Some(j) => {
                    proof {
                        let (t, jj) = sp_str_body(s@, i + 2)->Some_0;
                        assert(out@ =~= old(out)@ + (seq![s@[i + 1]] + t));
                    }
                    Some(j)
                },
                None => None,
            }
        } else {
            None
        }
    } else {
        push_char(out, c);
        let res = parse_str_body(s, i + 1, out);
        match res {
            Some(j) => {
                proof {
                    let (t, jj) = sp_str_body(s@, i + 1)->Some_0;
                    assert(out@ =~= old(out)@ + (seq![s@[i as int]] + t));
                }
                Some(j)
            },
            None => None,
        }
    }
}

/// Reads a quoted string from its opening quote.
fn parse_string(s: &str, i: usize) -> (r: Option<(String, usize)>)
    requires
        i <= s@.len(),
    ensures
        match r {
            Some(tj) => (sp_string(s@, i as int) matches Some(v) && v.0 == tj.0@ && v.1 == tj.1
                && i < tj.1 <= s@.len()),
            None => sp_string(s@, i as int) is None,
        },
{
    let n = s.unicode_len();
    if i < n && s.get_char(i) == '"' {
        let mut out = String::new();
        match parse_str_body(s, i + 1, &mut out) {
            Some(j) => Some((out, j)),
            None => None,
        }
    } else {
        None
    }
}

/// Reads a bracketed list of quoted strings from just after its opening
/// bracket, appending its elements to `out`, and yields the position just
/// past the closing bracket.
fn parse_str_list(s: &str, i: usize, out: &mut Vec<String>) -> (r: Option<usize>)
    requires
        i <= s@.len(),
    ensures
        match r {
            Some(j) => (sp_str_list(s@, i as int) matches Some(lj) && final(out).deep_view()
                == old(out).deep_view() + lj.0 && j == lj.1 && i < j <= s@.len()),
            None => sp_str_list(s@, i as int) is None,
        },
    decreases s@.len() - i,
{
    let n = s.unicode_len();
    if i >= n {
        return None;
    }
    if s.get_char(i) == ']' {
        proof {
            assert(out.deep_view() =~= old(out).deep_view() + Seq::<Seq<char>>::empty());
        }
        return Some(i + 1);
    }
    match parse_string(s, i) {
        None => None,
        Some((t, j)) => {
            let ghost tv = t@;
            out.push(t);
            proof {
                assert(out.deep_view() =~= old(out).deep_view().push(tv));
            }
            if j >= n {
                return None;
            }
            let cj = s.get_char(j);
            if cj == ']' {
                proof {
                    assert(out.deep_view() =~= old(out).deep_view() + seq![tv]);
                }
                Some(j + 1)
            } else if cj == ',' {
                let res = parse_str_list(s, j + 1, out);
                match res {
                    Some(k) => {
                        proof {
                            let (l, kk) = sp_str_list(s@, j + 1)->Some_0;
                            assert(out.deep_view() =~= old(out).deep_view() + (seq![tv] + l));
                        }
                        Some(k)
                    },
                    None => None,
                }
            } else {
                None
            }
        },
    }
}

/// Reads one runtime record from its opening brace.
fn parse_runtime(s: &str, i: usize) -> (r: Option<(Runtime, usize)>)
    requires
        i <= s@.len(),
    ensures
        match r {
            Some(rj) => (sp_runtime(s@, i as int) matches Some(v) && v.0 == rj.0@ && v.1 == rj.1
                && i < rj.1 <= s@.len()),
            None => sp_runtime(s@, i as int) is None,
        },
{
    let a = match match_lit(s, i, "{\"name\":") {
        None => {
            return None;
        },
        Some(a) => a,
    };
    let (name, b) = match parse_string(s, a) {
        None => {
            return None;
        },
        Some(nb) => nb,
    };
    let c = match match_lit(s, b, ",\"path\":") {
        None => {
            return None;
        },
        Some(c) => c,
    };
    let (path, d) = match parse_string(s, c) {
        None => {
            return None;
        },
        Some(pd) => pd,
    };
    let e = match match_lit(s, d, ",\"capabilities\":[") {
        None => {
            return None;
        },
        Some(e) => e,
    };
    let mut caps: Vec<String> = Vec::new();
    let f = match parse_str_list(s, e, &mut caps) {
        None => {
            return None;
        },
        Some(f) => f,
    };
    let n = s.unicode_len();
    if f < n && s.get_char(f) == '}' {
        let rt = Runtime { name, path, capabilities: caps };
        proof {
            let (caps_v, ff) = sp_str_list(s@, e as int)->Some_0;
            assert(rt.capabilities.deep_view() =~= caps_v);
        }
        Some((rt, f + 1))
    } else {
        None
    }
}

/// Reads a bracketed list of runtime records from just after its opening
/// bracket, appending its elements to `out`, and yields the position just
/// past the closing bracket.
fn parse_rt_list(s: &str, i: usize, out: &mut Vec<Runtime>) -> (r: Option<usize>)
    requires
        i <= s@.len(),
    ensures
        match r {
            Some(j) => (sp_rt_list(s@, i as int) matches Some(lj) && final(out).deep_view()
                == old(out).deep_view() + lj.0 && j == lj.1 && i < j <= s@.len()),
            None => sp_rt_list(s@, i as int) is None,
        },
    decreases s@.len() - i,
{
    let n = s.unicode_len();
    if i >= n {
        return None;
    }
    if s.get_char(i) == ']' {
        proof {
            assert(out.deep_view() =~= old(out).deep_view() + Seq::<RuntimeView>::empty());
        }
        return Some(i + 1);
    }
    match parse_runtime(s, i) {
        None => None,
        Some((rt, j)) => {
            let ghost rv = rt@;
            out.push(rt);
            proof {
                assert(out.deep_view() =~= old(out).deep_view().push(rv));
            }
            if j >= n {
                return None;
            }
            let cj = s.get_char(j);
            if cj == ']' {
                proof {
                    assert(out.deep_view() =~= old(out).deep_view() + seq![rv]);
                }
                Some(j + 1)
            } else if cj == ',' {
                let res = parse_rt_list(s, j + 1, out);
                match res {
                    Some(k) => {
                        proof {
                            let (l, kk) = sp_rt_list(s@, j + 1)->Some_0;
                            assert(out.deep_view() =~= old(out).deep_view() + (seq![rv] + l));
                        }
                        Some(k)
                    },
                    None => None,
                }
            } else {
                None
            }
        },
    }
}

/// Parses the canonical persisted form back into a registry.  Text that
/// does not fit the format exactly is rejected as corrupt.
pub fn parse_config(s: &str) -> (r: Result<Config, ConfigError>)
    ensures
        match r {
            Ok(c) => sp_config(s@) == Some(c@),
            Err(e) => e == ConfigError::CorruptState && sp_config(s@) is None,
        },
{
    let n = s.unicode_len();
    let i1 = match match_lit(s, 0, "{\"current\":") {
        None => {
            return Err(ConfigError::CorruptState);
        },
        Some(i1) => i1,
    };
    let (cur, i2): (Option<String>, usize) = if i1 < n && s.get_char(i1) == '"' {
        match parse_string(s, i1) {
            None => {
                return Err(ConfigError::CorruptState);
            },
            Some((t, j)) => (Some(t), j),
        }
    } else {
        match match_lit(s, i1, "null") {
            None => {
                return Err(ConfigError::CorruptState);
            },
            Some(j) => (None, j),
        }
    };
    let i3 = match match_lit(s, i2, ",\"runtimes\":[") {
        None => {
            return Err(ConfigError::CorruptState);
        },
        Some(i3) => i3,
    };
    let mut runtimes: Vec<Runtime> = Vec::new();
    let i4 = match parse_rt_list(s, i3, &mut runtimes) {
        None => {
            return Err(ConfigError::CorruptState);
        },
        Some(i4) => i4,
    };
    if i4 < n && s.get_char(i4) == '}' && i4 + 1 == n {
        let cfg = Config { current: cur, runtimes };
        proof {
            let (l, jj) = sp_rt_list(s@, i3 as int)->Some_0;
            assert(cfg.runtimes.deep_view() =~= l);
        }
        Ok(cfg)
    } else {
        Err(ConfigError::CorruptState)
    }
}

// ---------------------------------------------------------------------------
// The round trip: parsing a canonical encoding yields the encoded registry.
// ---------------------------------------------------------------------------
/// A part of a window into `s` is itself a window into `s`.
proof fn lemma_slice(s: Seq<char>, i: int, full: Seq<char>, a: int, part: Seq<char>)
    requires
        0 <= i,
        i + full.len() <= s.len(),
        s.subrange(i, i + full.len()) == full,
        0 <= a,
        a + part.len() <= full.len(),
        full.subrange(a, a + part.len()) == part,
    ensures
        s.subrange(i + a, i + a + part.len()) == part,
{
    assert forall|k: int| 0 <= k < part.len() implies s.subrange(i + a, i + a + part.len())[k]
        == part[k] by {
        assert(s.subrange(i, i + full.len())[a + k] == full[a + k]);
        assert(full.subrange(a, a + part.len())[k] == part[k]);
    }
    assert(s.subrange(i + a, i + a + part.len()) =~= part);
}

/// The character at offset `a` of a window into `s`.
proof fn lemma_char_at(s: Seq<char>, i: int, full: Seq<char>, a: int)
    requires
        0 <= i,
        i + full.len() <= s.len(),
        s.subrange(i, i + full.len()) == full,
        0 <= a < full.len(),
    ensures
        s[i + a] == full[a],
{
    assert(s.subrange(i, i + full.len())[a] == full[a]);
}

/// Parsing an escaped string body followed by a closing quote yields the
/// original string and stops just past the quote.
proof fn lemma_rt_body(s: Seq<char>, i: int, t: Seq<char>)
    requires
        0 <= i,
        i + enc_str_body(t).len() + 1 <= s.len(),
        s.subrange(i, i + enc_str_body(t).len() + 1) == enc_str_body(t) + seq!['"'],
    ensures
        sp_str_body(s, i) == Some((t, i + enc_str_body(t).len() + 1)),
    decreases t.len(),
{
    let eb = enc_str_body(t);
    let full = eb + seq!['"'];
    if t.len() == 0 {
        lemma_char_at(s, i, full, 0);
        assert(s[i] == '"');
        assert(sp_str_body(s, i) == Some((Seq::<char>::empty(), i + 1)));
        assert(t =~= Seq::<char>::empty());
    } else {
        let c = t[0];
        let t2 = t.skip(1);
        let eb2 = enc_str_body(t2);
        assert(eb == esc_char(c) + eb2);
        if c == '"' || c == '\\' {
            assert(esc_char(c) =~= seq!['\\', c]);
            lemma_char_at(s, i, full, 0);
            lemma_char_at(s, i, full, 1);
            assert(s[i] == '\\');
            assert(s[i + 1] == c);
            assert(full.subrange(2, 2 + (eb2.len() as int + 1)) =~= eb2 + seq!['"']);
            lemma_slice(s, i, full, 2, eb2 + seq!['"']);
            lemma_rt_body(s, i + 2, t2);
            assert(sp_str_body(s, i + 2) == Some((t2, i + 2 + eb2.len() + 1)));
            assert(seq![s[i + 1]] + t2 =~= t);
            assert(sp_str_body(s, i) == Some((t, i + eb.len() + 1)));
        } else {
            assert(esc_char(c) =~= seq![c]);
            lemma_char_at(s, i, full, 0);
            assert(s[i] == c);
            assert(full.subrange(1, 1 + (eb2.len() as int + 1)) =~= eb2 + seq!['"']);
            lemma_slice(s, i, full, 1, eb2 + seq!['"']);
            lemma_rt_body(s, i + 1, t2);
            assert(sp_str_body(s, i + 1) == Some((t2, i + 1 + eb2.len() + 1)));
            assert(seq![s[i]] + t2 =~= t);
            assert(sp_str_body(s, i) == Some((t, i + eb.len() + 1)));
        }
    }
}

/// Parsing a quoted string yields the original string.
proof fn lemma_rt_string(s: Seq<char>, i: int, t: Seq<char>)
    requires
        0 <= i,
        i + enc_string(t).len() <= s.len(),
        s.subrange(i, i + enc_string(t).len()) == enc_string(t),
    ensures
        sp_string(s, i) == Some((t, i + enc_string(t).len())),
{
    let eb = enc_str_body(t);
    let full = enc_string(t);
    assert(full == seq!['"'] + eb + seq!['"']);
    lemma_char_at(s, i, full, 0);
    assert(s[i] == '"');
    assert(full.subrange(1, 1 + (eb.len() as int + 1)) =~= eb + seq!['"']);
    lemma_slice(s, i, full, 1, eb + seq!['"']);
    lemma_rt_body(s, i + 1, t);
}

/// Parsing an encoded string list followed by a closing bracket yields the
/// original list and stops just past the bracket.
proof fn lemma_rt_str_list(s: Seq<char>, i: int, l: Seq<Seq<char>>)
    requires
        0 <= i,
        i + enc_str_list(l).len() + 1 <= s.len(),
        s.subrange(i, i + enc_str_list(l).len() + 1) == enc_str_list(l) + seq![']'],
    ensures
        sp_str_list(s, i) == Some((l, i + enc_str_list(l).len() + 1)),
    decreases l.len(),
{
    let el = enc_str_list(l);
    let full = el + seq![']'];
    if l.len() == 0 {
        lemma_char_at(s, i, full, 0);
        assert(s[i] == ']');
        assert(l =~= Seq::<Seq<char>>::empty());
    } else if l.len() == 1 {
        let e0 = enc_string(l[0]);
        assert(el == e0);
        assert(full.subrange(0, e0.len() as int) =~= e0);
        lemma_slice(s, i, full, 0, e0);
        lemma_rt_string(s, i, l[0]);
        let j = i + e0.len();
        lemma_char_at(s, i, full, e0.len() as int);
        assert(s[j] == ']');
        assert(enc_string(l[0])[0] == '"');
        lemma_char_at(s, i, full, 0);
        assert(s[i] == '"');
        assert(seq![l[0]] =~= l);
        assert(sp_str_list(s, i) == Some((l, j + 1)));
    } else {
        let e0 = enc_string(l[0]);
        let rest = enc_str_list(l.skip(1));
        assert(el == e0 + seq![','] + rest);
        assert(full.subrange(0, e0.len() as int) =~= e0);
        lemma_slice(s, i, full, 0, e0);
        lemma_rt_string(s, i, l[0]);
        let j = i + e0.len();
        lemma_char_at(s, i, full, e0.len() as int);
        assert(s[j] == ',');
        lemma_char_at(s, i, full, 0);
        assert(s[i] == '"');
        assert(full.subrange(e0.len() as int + 1, e0.len() as int + 1 + (rest.len() as int + 1)) =~= rest + seq![']']);
        lemma_slice(s, i, full, e0.len() as int + 1, rest + seq![']']);
        lemma_rt_str_list(s, j + 1, l.skip(1));
        assert(sp_str_list(s, j + 1) == Some((l.skip(1), j + 1 + rest.len() + 1)));
        assert(seq![l[0]] + l.skip(1) =~= l);
        assert(sp_str_list(s, i) == Some((l, i + el.len() + 1)));
    }
}

/// Parsing an encoded runtime record yields the original record.
proof fn lemma_rt_runtime(s: Seq<char>, i: int, v: RuntimeView)
    requires
        0 <= i,
        i + enc_runtime(v).len() <= s.len(),
        s.subrange(i, i + enc_runtime(v).len()) == enc_runtime(v),
    ensures
        sp_runtime(s, i) == Some((v, i + enc_runtime(v).len())),
{
    let l1 = "{\"name\":"@;
    let e1 = enc_string(v.name);
    let l2 = ",\"path\":"@;
    let e2 = enc_string(v.path);
    let l3 = ",\"capabilities\":["@;
    let e3 = enc_str_list(v.capabilities);
    let full = enc_runtime(v);
    assert(full == l1 + e1 + l2 + e2 + l3 + e3 + seq![']'] + seq!['}']);
    let a1 = l1.len() as int;
    let a2 = a1 + e1.len();
    let a3 = a2 + l2.len();
    let a4 = a3 + e2.len();
    let a5 = a4 + l3.len();
    let a6 = a5 + e3.len();
    assert(full.subrange(0, a1) =~= l1);
    lemma_slice(s, i, full, 0, l1);
    assert(lit_at(s, i, l1));
    assert(full.subrange(a1, a1 + e1.len()) =~= e1);
    lemma_slice(s, i, full, a1, e1);
    lemma_rt_string(s, i + a1, v.name);
    assert(full.subrange(a2, a2 + l2.len()) =~= l2);
    lemma_slice(s, i, full, a2, l2);
    assert(lit_at(s, i + a2, l2));
    assert(full.subrange(a3, a3 + e2.len()) =~= e2);
    lemma_slice(s, i, full, a3, e2);
    lemma_rt_string(s, i + a3, v.path);
    assert(full.subrange(a4, a4 + l3.len()) =~= l3);
    lemma_slice(s, i, full, a4, l3);
    assert(lit_at(s, i + a4, l3));
    assert(full.subrange(a5, a5 + (e3.len() + 1)) =~= e3 + seq![']']);
    lemma_slice(s, i, full, a5, e3 + seq![']']);
    lemma_rt_str_list(s, i + a5, v.capabilities);
    lemma_char_at(s, i, full, a6 + 1);
    assert(s[i + a6 + 1] == '}');
    assert(RuntimeView { name: v.name, path: v.path, capabilities: v.capabilities } == v);
    assert(sp_runtime(s, i) == Some((v, i + full.len())));
}

/// Parsing an encoded runtime list followed by a closing bracket yields the
/// original list and stops just past the bracket.
proof fn lemma_rt_rt_list(s: Seq<char>, i: int, l: Seq<RuntimeView>)
    requires
        0 <= i,
        i + enc_rt_list(l).len() + 1 <= s.len(),
        s.subrange(i, i + enc_rt_list(l).len() + 1) == enc_rt_list(l) + seq![']'],
    ensures
        sp_rt_list(s, i) == Some((l, i + enc_rt_list(l).len() + 1)),
    decreases l.len(),
{
    let el = enc_rt_list(l);
    let full = el + seq![']'];
    if l.len() == 0 {
        lemma_char_at(s, i, full, 0);
        assert(s[i] == ']');
        assert(l =~= Seq::<RuntimeView>::empty());
    } else if l.len() == 1 {
        let e0 = enc_runtime(l[0]);
        assert(el == e0);
        assert(full.subrange(0, e0.len() as int) =~= e0);
        lemma_slice(s, i, full, 0, e0);
        lemma_rt_runtime(s, i, l[0]);
        let j = i + e0.len();
        lemma_char_at(s, i, full, e0.len() as int);
        assert(s[j] == ']');
        lemma_char_at(s, i, full, 0);
        assert(s[i] == e0[0]);
        reveal_strlit("{\"name\":");
        assert(e0[0] == '{') by {
            assert(e0 == "{\"name\":"@ + enc_string(l[0].name) + ",\"path\":"@ + enc_string(
                l[0].path,
            ) + ",\"capabilities\":["@ + enc_str_list(l[0].capabilities) + seq![']'] + seq!['}']);
        }
        assert(s[i] == '{');
        assert(seq![l[0]] =~= l);
        assert(sp_rt_list(s, i) == Some((l, j + 1)));
    } else {
        let e0 = enc_runtime(l[0]);
        let rest = enc_rt_list(l.skip(1));
        assert(el == e0 + seq![','] + rest);
        assert(full.subrange(0, e0.len() as int) =~= e0);
        lemma_slice(s, i, full, 0, e0);
        lemma_rt_runtime(s, i, l[0]);
        let j = i + e0.len();
        lemma_char_at(s, i, full, e0.len() as int);
        assert(s[j] == ',');
        lemma_char_at(s, i, full, 0);
        assert(s[i] == e0[0]);
        reveal_strlit("{\"name\":");
        assert(e0[0] == '{') by {
            assert(e0 == "{\"name\":"@ + enc_string(l[0].name) + ",\"path\":"@ + enc_string(
                l[0].path,
            ) + ",\"capabilities\":["@ + enc_str_list(l[0].capabilities) + seq![']'] + seq!['}']);
        }
        assert(s[i] == '{');
        assert(full.subrange(e0.len() as int + 1, e0.len() as int + 1 + (rest.len() as int + 1)) =~= rest + seq![']']);
        lemma_slice(s, i, full, e0.len() as int + 1, rest + seq![']']);
        lemma_rt_rt_list(s, j + 1, l.skip(1));
        assert(sp_rt_list(s, j + 1) == Some((l.skip(1), j + 1 + rest.len() + 1)));
        assert(seq![l[0]] + l.skip(1) =~= l);
        assert(sp_rt_list(s, i) == Some((l, i + el.len() + 1)));
    }
}

/// Parsing an encoded selection yields the original selection.
proof fn lemma_rt_current(s: Seq<char>, i: int, c: Option<Seq<char>>)
    requires
        0 <= i,
        i + enc_current(c).len() <= s.len(),
        s.subrange(i, i + enc_current(c).len()) == enc_current(c),
    ensures
        sp_current(s, i) == Some((c, i + enc_current(c).len())),
{
    match c {
        Some(nm) => {
            let full = enc_current(c);
            assert(full == enc_string(nm));
            lemma_char_at(s, i, full, 0);
            assert(s[i] == '"');
            lemma_rt_string(s, i, nm);
        },
        None => {
            let full = "null"@;
            reveal_strlit("null");
            lemma_char_at(s, i, full, 0);
            assert(s[i] == 'n');
            assert(lit_at(s, i, "null"@));
        },
    }
}

/// The round trip of the registry encoding: parsing the canonical encoding
/// of any registry yields exactly that registry — names, paths, capability
/// sets, selection and order all preserved.
#[verifier::rlimit(100)]
pub proof fn lemma_round_trip(v: ConfigView)
    ensures
        sp_config(enc_config(v)) == Some(v),
{
    let h = "{\"current\":"@;
    let cur = enc_current(v.current);
    let rlit = ",\"runtimes\":["@;
    let rl = enc_rt_list(v.runtimes);
    let s = enc_config(v);
    assert(s == h + cur + rlit + rl + seq![']'] + seq!['}']);
    assert(s.subrange(0, s.len() as int) =~= s);
    let a1 = h.len() as int;
    let a2 = a1 + cur.len();
    let a3 = a2 + rlit.len();
    let a4 = a3 + rl.len();
    assert(s.subrange(0, a1) =~= h);
    assert(lit_at(s, 0, h));
    assert(s.subrange(a1, a1 + cur.len()) =~= cur);
    lemma_rt_current(s, a1, v.current);
    assert(s.subrange(a2, a2 + rlit.len()) =~= rlit);
    assert(lit_at(s, a2, rlit));
    assert(s.subrange(a3, a3 + (rl.len() + 1)) =~= rl + seq![']']);
    lemma_rt_rt_list(s, a3, v.runtimes);
    assert(sp_rt_list(s, a3) == Some((v.runtimes, a4 + 1)));
    assert(s[a4 + 1] == '}');
    assert(a4 + 2 == s.len());
    assert(ConfigView { current: v.current, runtimes: v.runtimes } == v);
    assert(sp_config(s) == Some(v));
}

} // verus!
