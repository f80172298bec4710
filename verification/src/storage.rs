//! The byte store format: a task collection is kept as one structured
//! document, a single `tasks` field holding the ordered task records.
//! The encoder below defines the canonical document exactly, and the
//! parser accepts exactly the canonical documents, so that a saved
//! collection always loads back unchanged; anything else is corrupt.

use vstd::prelude::*;

use crate::task::digit_char;
use crate::task::digit_str;
use crate::task::TaskView;
use crate::tasks::Tasks;

verus! {

/// Why a stored document was rejected.
#[derive(Clone, Copy, Debug, PartialEq, Eq, Structural)]
pub enum LoadError {
    /// The store has content for this key, but it does not deserialize.
    Corrupt,
}

/// Why a save failed.
#[derive(Clone, Copy, Debug, PartialEq, Eq, Structural)]
pub enum SaveError {
    /// Serializing the collection failed.
    EncodingFailed,
    /// The underlying store refused the write.
    WriteFailed,
}

/// A description with `"` and `\` escaped by a backslash; every other
/// character stands for itself.
pub open spec fn escape(s: Seq<char>) -> Seq<char>
    decreases s.len(),
{
    if s.len() == 0 {
        Seq::empty()
    } else {
        (if s[0] == '"' || s[0] == '\\' {
            seq!['\\', s[0]]
        } else {
            seq![s[0]]
        }) + escape(s.drop_first())
    }
}

/// Decimal rendering of a byte, without leading zeros.
pub open spec fn dec_u8(n: u8) -> Seq<char> {
    if n < 10 {
        seq![digit_char(n as int)]
    } else if n < 100 {
        seq![digit_char(n as int / 10), digit_char(n as int % 10)]
    } else {
        seq![
            digit_char(n as int / 100),
            digit_char((n as int / 10) % 10),
            digit_char(n as int % 10),
        ]
    }
}

pub open spec fn encode_opt_time(o: Option<(u8, u8)>) -> Seq<char> {
    match o {
        None => "null"@,
        Some(hm) => "["@ + dec_u8(hm.0) + ","@ + dec_u8(hm.1) + "]"@,
    }
}

pub open spec fn encode_bool(b: bool) -> Seq<char> {
    if b {
        "true"@
    } else {
        "false"@
    }
}

/// The canonical record of one task.
pub open spec fn encode_task(t: TaskView) -> Seq<char> {
    "{\"desc\":\""@ + escape(t.desc) + "\""@ + ",\"start_time\":"@ + encode_opt_time(t.start_time)
        + ",\"end_time\":"@ + encode_opt_time(t.end_time) + ",\"completed\":"@ + encode_bool(
        t.completed,
    ) + "}"@
}

/// The task records, comma-separated.
pub open spec fn encode_list(s: Seq<TaskView>) -> Seq<char>
    decreases s.len(),
{
    if s.len() == 0 {
        Seq::empty()
    } else if s.len() == 1 {
        encode_task(s[0])
    } else {
        encode_task(s[0]) + ","@ + encode_list(s.drop_first())
    }
}

/// The canonical document of a whole collection.
pub open spec fn encode_tasks(s: Seq<TaskView>) -> Seq<char> {
    "{\"tasks\":["@ + encode_list(s) + "]}"@
}

/// Recognize `lit` at position `i` of `s`.
pub open spec fn ps_lit(s: Seq<char>, i: int, lit: Seq<char>) -> Option<int> {
    if 0 <= i && i + lit.len() <= s.len() && s.subrange(i, i + lit.len()) == lit {
        Some(i + lit.len())
    } else {
        None
    }
}

/// Read an escaped string body up to and over its closing quote,
/// yielding the unescaped text.
pub open spec fn ps_strbody(s: Seq<char>, i: int) -> Option<(Seq<char>, int)>
    decreases s.len() - i,
{
    if !(0 <= i < s.len()) {
        None
    } else if s[i] == '"' {
        Some((Seq::empty(), i + 1))
    } else if s[i] == '\\' {
        if i + 1 < s.len() && (s[i + 1] == '"' || s[i + 1] == '\\') {
            match ps_strbody(s, i + 2) {
                Some(dj) => Some((seq![s[i + 1]] + dj.0, dj.1)),
                None => None,
            }
        } else {
            None
        }
    } else {
        match ps_strbody(s, i + 1) {
            Some(dj) => Some((seq![s[i]] + dj.0, dj.1)),
            None => None,
        }
    }
}

pub open spec fn is_digit(c: char) -> bool {
    crate::time::is_digit(c)
}

/// Read a canonical decimal byte: no leading zero, at most three
/// digits, value at most 255, maximal munch.
pub open spec fn ps_num(s: Seq<char>, i: int) -> Option<(u8, int)> {
    if !(0 <= i < s.len() && is_digit(s[i])) {
        None
    } else if s[i] == '0' {
        if i + 1 < s.len() && is_digit(s[i + 1]) {
            None
        } else {
            Some((0, i + 1))
        }
    } else {
        let d1 = crate::time::digit_val(s[i]);
        if i + 1 < s.len() && is_digit(s[i + 1]) {
            let d2 = d1 * 10 + crate::time::digit_val(s[i + 1]);
            if i + 2 < s.len() && is_digit(s[i + 2]) {
                let d3 = d2 * 10 + crate::time::digit_val(s[i + 2]);
                if i + 3 < s.len() && is_digit(s[i + 3]) {
                    None
                } else if d3 <= 255 {
                    Some((d3 as u8, i + 3))
                } else {
                    None
                }
            } else {
                Some((d2 as u8, i + 2))
            }
        } else {
            Some((d1 as u8, i + 1))
        }
    }
}

/// Read `null` or a `[hour,minute]` pair.
pub open spec fn ps_opt_time(s: Seq<char>, i: int) -> Option<(Option<(u8, u8)>, int)> {
    match ps_lit(s, i, "null"@) {
        Some(j) => Some((None, j)),
        None => if 0 <= i < s.len() && s[i] == '[' {
            match ps_num(s, i + 1) {
                Some(hj) => if hj.1 < s.len() && s[hj.1] == ',' {
                    match ps_num(s, hj.1 + 1) {
                        Some(mj) => if mj.1 < s.len() && s[mj.1] == ']' {
                            Some((Some((hj.0, mj.0)), mj.1 + 1))
                        } else {
                            None
                        },
                        None => None,
                    }
                } else {
                    None
                },
                None => None,
            }
        } else {
            None
        },
    }
}

pub open spec fn ps_bool(s: Seq<char>, i: int) -> Option<(bool, int)> {
    match ps_lit(s, i, "true"@) {
        Some(j) => Some((true, j)),
        None => match ps_lit(s, i, "false"@) {
            Some(j) => Some((false, j)),
            None => None,
        },
    }
}

/// Read one canonical task record.
pub open spec fn ps_task(s: Seq<char>, i: int) -> Option<(TaskView, int)> {
    match ps_lit(s, i, "{\"desc\":\""@) {
        None => None,
        Some(j0) => match ps_strbody(s, j0) {
            None => None,
            Some(dj) => match ps_lit(s, dj.1, ",\"start_time\":"@) {
                None => None,
                Some(j2) => match ps_opt_time(s, j2) {
                    None => None,
                    Some(stj) => match ps_lit(s, stj.1, ",\"end_time\":"@) {
                        None => None,
                        Some(j4) => match ps_opt_time(s, j4) {
                            None => None,
                            Some(etj) => match ps_lit(s, etj.1, ",\"completed\":"@) {
                                None => None,
                                Some(j6) => match ps_bool(s, j6) {
                                    None => None,
                                    Some(cj) => match ps_lit(s, cj.1, "}"@) {
                                        None => None,
                                        Some(j8) => Some(
                                            (
                                                TaskView {
                                                    desc: dj.0,
                                                    start_time: stj.0,
                                                    end_time: etj.0,
                                                    completed: cj.0,
                                                },
                                                j8,
                                            ),
                                        ),
                                    },
                                },
                            },
                        },
                    },
                },
            },
        },
    }
}

/// Read one or more comma-separated task records.
pub open spec fn ps_list(s: Seq<char>, i: int) -> Option<(Seq<TaskView>, int)>
    decreases s.len() - i,
{
    match ps_task(s, i) {
        None => None,
        Some(tj) => if i < tj.1 <= s.len() {
            if tj.1 < s.len() && s[tj.1] == ',' {
                match ps_list(s, tj.1 + 1) {
                    Some(rk) => Some((seq![tj.0] + rk.0, rk.1)),
                    None => None,
                }
            } else {
                Some((seq![tj.0], tj.1))
            }
        } else {
            None
        },
    }
}

/// Read a whole canonical document; the document must end with it.
pub open spec fn ps_doc(s: Seq<char>) -> Option<Seq<TaskView>> {
    match ps_lit(s, 0, "{\"tasks\":["@) {
        None => None,
        Some(j0) => if j0 < s.len() && s[j0] == ']' {
            if j0 + 2 == s.len() && s[j0 + 1] == '}' {
                Some(Seq::empty())
            } else {
                None
            }
        } else {
            match ps_list(s, j0) {
                None => None,
                Some(tj) => match ps_lit(s, tj.1, "]}"@) {
                    Some(k) => if k == s.len() {
                        Some(tj.0)
                    } else {
                        None
                    },
                    None => None,
                },
            }
        },
    }
}

proof fn lemma_escape_append(a: Seq<char>, b: Seq<char>)
    ensures
        escape(a + b) == escape(a) + escape(b),
    decreases a.len(),
{
    if a.len() == 0 {
        assert(a + b =~= b);
        assert(escape(a) + escape(b) =~= escape(b));
    } else {
        assert((a + b).drop_first() =~= a.drop_first() + b);
        lemma_escape_append(a.drop_first(), b);
        assert(escape(a + b) =~= escape(a) + escape(b));
    }
}

proof fn lemma_encode_list_snoc(s: Seq<TaskView>, t: TaskView)
    ensures
        encode_list(s.push(t)) == if s.len() == 0 {
            encode_task(t)
        } else {
            encode_list(s) + ","@ + encode_task(t)
        },
    decreases s.len(),
{
    let p = s.push(t);
    if s.len() == 0 {
        assert(p.len() == 1);
        assert(p[0] == t);
    } else {
        assert(p[0] == s[0]);
        assert(p.drop_first() =~= s.drop_first().push(t));
        lemma_encode_list_snoc(s.drop_first(), t);
        if s.len() == 1 {
            assert(s.drop_first().len() == 0);
            assert(encode_list(s) == encode_task(s[0]));
            assert(encode_list(p) =~= encode_list(s) + ","@ + encode_task(t));
        } else {
            assert(encode_list(p) =~= encode_list(s) + ","@ + encode_task(t));
        }
    }
}

/// Append the escaped form of `s` to `out`.
fn push_escaped(out: &mut String, s: &str)
    ensures
        final(out)@ == old(out)@ + escape(s@),
{
    let n = s.unicode_len();
    let mut i: usize = 0;
    proof {
        assert(s@.subrange(0, 0) =~= Seq::<char>::empty());
        assert(out@ =~= old(out)@ + escape(s@.subrange(0, 0)));
    }
    while i < n
        invariant
            n == s@.len(),
            0 <= i <= n,
            out@ == old(out)@ + escape(s@.subrange(0, i as int)),
        decreases n - i,
    {
        let c = s.get_char(i);
        proof {
            reveal_strlit("\\\"");
            reveal_strlit("\\\\");
            let pre = s@.subrange(0, i as int);
            let one = seq![c];
            assert(s@.subrange(0, i + 1) =~= pre + one);
            lemma_escape_append(pre, one);
            assert(one.drop_first() =~= Seq::<char>::empty());
            assert(escape(Seq::<char>::empty()) =~= Seq::<char>::empty());
            assert(escape(one) =~= if c == '"' || c == '\\' {
                seq!['\\', c]
            } else {
                seq![c]
            });
            if c == '"' {
                assert("\\\""@ =~= seq!['\\', c]);
            }
            if c == '\\' {
                assert("\\\\"@ =~= seq!['\\', c]);
            }
        }
        if c == '"' {
            out.append("\\\"");
            assert(out@ =~= old(out)@ + escape(s@.subrange(0, i + 1)));
        } else if c == '\\' {
            out.append("\\\\");
            assert(out@ =~= old(out)@ + escape(s@.subrange(0, i + 1)));
        } else {
            let piece = s.substring_char(i, i + 1);
            out.append(piece);
            assert(out@ =~= old(out)@ + escape(s@.subrange(0, i + 1)));
        }
        i = i + 1;
    }
    proof {
        assert(s@.subrange(0, n as int) =~= s@);
    }
}

/// Append the decimal form of `n` to `out`.
fn push_dec(out: &mut String, n: u8)
    ensures
        final(out)@ == old(out)@ + dec_u8(n),
{
    if n < 10 {
        out.append(digit_str(n));
    } else if n < 100 {
        out.append(digit_str(n / 10));
        out.append(digit_str(n % 10));
    } else {
        out.append(digit_str(n / 100));
        out.append(digit_str((n / 10) % 10));
        out.append(digit_str(n % 10));
    }
    assert(final(out)@ =~= old(out)@ + dec_u8(n));
}

fn push_opt_time(out: &mut String, o: Option<(u8, u8)>)
    ensures
        final(out)@ == old(out)@ + encode_opt_time(o),
{
    match o {
        None => {
            out.append("null");
        },
        Some(hm) => {
            out.append("[");
            push_dec(out, hm.0);
            out.append(",");
            push_dec(out, hm.1);
            out.append("]");
        },
    }
    assert(final(out)@ =~= old(out)@ + encode_opt_time(o));
}

fn push_task(out: &mut String, t: &crate::task::Task)
    ensures
        final(out)@ == old(out)@ + encode_task(t@),
{
    out.append("{\"desc\":\"");
    push_escaped(out, t.desc.as_str());
    out.append("\"");
    out.append(",\"start_time\":");
    push_opt_time(out, t.start_time);
    out.append(",\"end_time\":");
    push_opt_time(out, t.end_time);
    out.append(",\"completed\":");
    if t.completed {
        out.append("true");
    } else {
        out.append("false");
    }
    out.append("}");
    assert(final(out)@ =~= old(out)@ + encode_task(t@));
}

/// Splitting a known stretch of `s` into its two halves.
proof fn lemma_split(s: Seq<char>, i: int, a: Seq<char>, b: Seq<char>)
    requires
        0 <= i,
        i + a.len() + b.len() <= s.len(),
        s.subrange(i, i + a.len() + b.len()) == a + b,
    ensures
        s.subrange(i, i + a.len()) == a,
        s.subrange(i + a.len(), i + a.len() + b.len()) == b,
{
    let ab = s.subrange(i, i + a.len() + b.len());
    assert forall|k: int| 0 <= k < a.len() implies s.subrange(i, i + a.len())[k] == a[k] by {
        assert(ab[k] == (a + b)[k]);
    }
    assert(s.subrange(i, i + a.len()) =~= a);
    assert forall|k: int| 0 <= k < b.len() implies s.subrange(
        i + a.len(),
        i + a.len() + b.len(),
    )[k] == b[k] by {
        assert(ab[a.len() + k] == (a + b)[a.len() + k]);
    }
    assert(s.subrange(i + a.len(), i + a.len() + b.len()) =~= b);
}

proof fn lemma_digit_char(d: int)
    requires
        0 <= d <= 9,
    ensures
        is_digit(digit_char(d)),
        crate::time::digit_val(digit_char(d)) == d,
        d > 0 ==> digit_char(d) != '0',
{
}

/// Reading back an escaped description: the parser recovers exactly
/// the text that was escaped, and stops on the closing quote.
proof fn lemma_rt_strbody(s: Seq<char>, i: int, d: Seq<char>)
    requires
        0 <= i,
        i + escape(d).len() + 1 <= s.len(),
        s.subrange(i, i + escape(d).len()) == escape(d),
        s[i + escape(d).len()] == '"',
    ensures
        ps_strbody(s, i) == Some((d, i + escape(d).len() + 1)),
    decreases d.len(),
{
    let e = escape(d);
    if d.len() == 0 {
        assert(e =~= Seq::<char>::empty());
        assert(s[i] == '"');
    } else {
        let c = d[0];
        let e1 = escape(d.drop_first());
        let head: Seq<char> = if c == '"' || c == '\\' {
            seq!['\\', c]
        } else {
            seq![c]
        };
        assert(e == head + e1);
        lemma_split(s, i, head, e1);
        let i1 = i + head.len();
        assert(s.subrange(i1, i1 + e1.len()) == e1);
        assert(s[i1 + e1.len()] == '"') by {
            assert(i1 + e1.len() == i + e.len());
        }
        lemma_rt_strbody(s, i1, d.drop_first());
        if c == '"' || c == '\\' {
            assert(s[i] == '\\') by {
                assert(s.subrange(i, i + head.len())[0] == head[0]);
            }
            assert(s[i + 1] == c) by {
                assert(s.subrange(i, i + head.len())[1] == head[1]);
            }
            assert(ps_strbody(s, i) == Some((seq![c] + d.drop_first(), i + e.len() + 1)));
            assert(seq![c] + d.drop_first() =~= d);
        } else {
            assert(s[i] == c) by {
                assert(s.subrange(i, i + head.len())[0] == head[0]);
            }
            assert(ps_strbody(s, i) == Some((seq![c] + d.drop_first(), i + e.len() + 1)));
            assert(seq![c] + d.drop_first() =~= d);
        }
    }
}

/// Reading back a canonical decimal byte, provided no digit follows.
proof fn lemma_rt_num(s: Seq<char>, i: int, n: u8)
    requires
        0 <= i,
        i + dec_u8(n).len() <= s.len(),
        s.subrange(i, i + dec_u8(n).len()) == dec_u8(n),
        i + dec_u8(n).len() < s.len() ==> !is_digit(s[i + dec_u8(n).len()]),
    ensures
        ps_num(s, i) == Some((n, i + dec_u8(n).len())),
{
    let e = dec_u8(n);
    assert forall|k: int| 0 <= k < e.len() implies s[i + k] == #[trigger] e[k] by {
        assert(s.subrange(i, i + e.len())[k] == e[k]);
    }
    if n < 10 {
        lemma_digit_char(n as int);
        assert(e[0] == digit_char(n as int));
        assert(s[i] == e[0]);
    } else if n < 100 {
        lemma_digit_char(n as int / 10);
        lemma_digit_char(n as int % 10);
        assert(e[0] == digit_char(n as int / 10));
        assert(e[1] == digit_char(n as int % 10));
        assert(s[i] == e[0]);
        assert(s[i + 1] == e[1]);
        assert((n as int / 10) * 10 + n as int % 10 == n as int);
    } else {
        lemma_digit_char(n as int / 100);
        lemma_digit_char((n as int / 10) % 10);
        lemma_digit_char(n as int % 10);
        assert(e[0] == digit_char(n as int / 100));
        assert(e[1] == digit_char((n as int / 10) % 10));
        assert(e[2] == digit_char(n as int % 10));
        assert(s[i] == e[0]);
        assert(s[i + 1] == e[1]);
        assert(s[i + 2] == e[2]);
        assert(n as int / 100 == (n as int / 10) / 10);
        assert(((n as int / 10) / 10) * 10 + (n as int / 10) % 10 == n as int / 10);
        assert((n as int / 10) * 10 + n as int % 10 == n as int);
    }
}

/// Reading back an encoded optional time.
proof fn lemma_rt_opt_time(s: Seq<char>, i: int, o: Option<(u8, u8)>)
    requires
        0 <= i,
        i + encode_opt_time(o).len() <= s.len(),
        s.subrange(i, i + encode_opt_time(o).len()) == encode_opt_time(o),
    ensures
        ps_opt_time(s, i) == Some((o, i + encode_opt_time(o).len())),
{
    reveal_strlit("null");
    reveal_strlit("[");
    reveal_strlit(",");
    reveal_strlit("]");
    let enc = encode_opt_time(o);
    match o {
        None => {
            assert(ps_lit(s, i, "null"@) == Some(i + 4));
        },
        Some(hm) => {
            let eh = dec_u8(hm.0);
            let em = dec_u8(hm.1);
            let r1 = eh + (","@ + (em + "]"@));
            assert(enc =~= "["@ + r1);
            lemma_split(s, i, "["@, r1);
            let p1 = i + 1;
            assert(s[i] == '[') by {
                assert(s.subrange(i, i + 1)[0] == "["@[0]);
            }
            let r2 = ","@ + (em + "]"@);
            assert(s.subrange(p1, p1 + r1.len()) == r1);
            lemma_split(s, p1, eh, r2);
            let p2 = p1 + eh.len();
            let r3 = em + "]"@;
            lemma_split(s, p2, ","@, r3);
            let p3 = p2 + 1;
            assert(s[p2] == ',') by {
                assert(s.subrange(p2, p2 + 1)[0] == ","@[0]);
            }
            lemma_split(s, p3, em, "]"@);
            let p4 = p3 + em.len();
            assert(s[p4] == ']') by {
                assert(s.subrange(p4, p4 + 1)[0] == "]"@[0]);
            }
            assert(!is_digit(',') && !is_digit(']'));
            lemma_rt_num(s, p1, hm.0);
            lemma_rt_num(s, p3, hm.1);
            assert(ps_lit(s, i, "null"@) is None) by {
                if 0 <= i && i + 4 <= s.len() && s.subrange(i, i + 4) == "null"@ {
                    assert(s.subrange(i, i + 4)[0] == 'n');
                    assert(s[i] == '[');
                }
            }
            assert(p4 + 1 == i + enc.len());
        },
    }
}

/// Reading back an encoded boolean.
proof fn lemma_rt_bool(s: Seq<char>, i: int, b: bool)
    requires
        0 <= i,
        i + encode_bool(b).len() <= s.len(),
        s.subrange(i, i + encode_bool(b).len()) == encode_bool(b),
    ensures
        ps_bool(s, i) == Some((b, i + encode_bool(b).len())),
{
    reveal_strlit("true");
    reveal_strlit("false");
    if b {
        assert(ps_lit(s, i, "true"@) == Some(i + 4));
    } else {
        assert(ps_lit(s, i, "true"@) is None) by {
            if 0 <= i && i + 4 <= s.len() && s.subrange(i, i + 4) == "true"@ {
                assert(s.subrange(i, i + 4)[0] == 't');
                assert(s.subrange(i, i + 5)[0] == 'f');
            }
        }
        assert(ps_lit(s, i, "false"@) == Some(i + 5));
    }
}

/// Reading back one encoded task record.
proof fn lemma_rt_task(s: Seq<char>, i: int, t: TaskView)
    requires
        0 <= i,
        i + encode_task(t).len() <= s.len(),
        s.subrange(i, i + encode_task(t).len()) == encode_task(t),
    ensures
        ps_task(s, i) == Some((t, i + encode_task(t).len())),
{
    reveal_strlit("{\"desc\":\"");
    reveal_strlit("\"");
    reveal_strlit(",\"start_time\":");
    reveal_strlit(",\"end_time\":");
    reveal_strlit(",\"completed\":");
    reveal_strlit("}");
    let s_a = "{\"desc\":\""@;
    let e = escape(t.desc);
    let s_q = "\""@;
    let s_b = ",\"start_time\":"@;
    let e_st = encode_opt_time(t.start_time);
    let s_c = ",\"end_time\":"@;
    let e_et = encode_opt_time(t.end_time);
    let s_d = ",\"completed\":"@;
    let e_b = encode_bool(t.completed);
    let s_e = "}"@;
    let enc = encode_task(t);
    let r1 = e + (s_q + (s_b + (e_st + (s_c + (e_et + (s_d + (e_b + s_e)))))));
    assert(enc =~= s_a + r1);
    lemma_split(s, i, s_a, r1);
    let q1 = i + s_a.len();
    let r2 = s_q + (s_b + (e_st + (s_c + (e_et + (s_d + (e_b + s_e))))));
    lemma_split(s, q1, e, r2);
    let q2 = q1 + e.len();
    let r3 = s_b + (e_st + (s_c + (e_et + (s_d + (e_b + s_e)))));
    lemma_split(s, q2, s_q, r3);
    let q3 = q2 + 1;
    assert(s[q2] == '"') by {
        assert(s.subrange(q2, q2 + 1)[0] == s_q[0]);
    }
    let r4 = e_st + (s_c + (e_et + (s_d + (e_b + s_e))));
    lemma_split(s, q3, s_b, r4);
    let q4 = q3 + s_b.len();
    let r5 = s_c + (e_et + (s_d + (e_b + s_e)));
    lemma_split(s, q4, e_st, r5);
    let q5 = q4 + e_st.len();
    let r6 = e_et + (s_d + (e_b + s_e));
    lemma_split(s, q5, s_c, r6);
    let q6 = q5 + s_c.len();
    let r7 = s_d + (e_b + s_e);
    lemma_split(s, q6, e_et, r7);
    let q7 = q6 + e_et.len();
    let r8 = e_b + s_e;
    lemma_split(s, q7, s_d, r8);
    let q8 = q7 + s_d.len();
    lemma_split(s, q8, e_b, s_e);
    let q9 = q8 + e_b.len();
    let q10 = q9 + 1;
    assert(q10 == i + enc.len());
    assert(ps_lit(s, i, s_a) == Some(q1));
    lemma_rt_strbody(s, q1, t.desc);
    assert(ps_strbody(s, q1) == Some((t.desc, q3)));
    assert(ps_lit(s, q3, s_b) == Some(q4));
    lemma_rt_opt_time(s, q4, t.start_time);
    assert(ps_lit(s, q5, s_c) == Some(q6));
    lemma_rt_opt_time(s, q6, t.end_time);
    assert(ps_lit(s, q7, s_d) == Some(q8));
    lemma_rt_bool(s, q8, t.completed);
    assert(ps_lit(s, q9, s_e) == Some(q10));
    assert(ps_task(s, i) == Some(
        (
            TaskView {
                desc: t.desc,
                start_time: t.start_time,
                end_time: t.end_time,
                completed: t.completed,
            },
            q10,
        ),
    ));
    assert(TaskView {
        desc: t.desc,
        start_time: t.start_time,
        end_time: t.end_time,
        completed: t.completed,
    } == t);
}

/// Reading back an encoded non-empty task list, up to the closing
/// bracket that follows it.
proof fn lemma_rt_list(s: Seq<char>, i: int, ts: Seq<TaskView>)
    requires
        ts.len() >= 1,
        0 <= i,
        i + encode_list(ts).len() < s.len(),
        s.subrange(i, i + encode_list(ts).len()) == encode_list(ts),
        s[i + encode_list(ts).len()] == ']',
    ensures
        ps_list(s, i) == Some((ts, i + encode_list(ts).len())),
    decreases ts.len(),
{
    reveal_strlit("{\"desc\":\"");
    reveal_strlit(",");
    let enc = encode_list(ts);
    let et0 = encode_task(ts[0]);
    assert(et0.len() >= 9);
    if ts.len() == 1 {
        assert(enc == et0);
        lemma_rt_task(s, i, ts[0]);
        let j = i + et0.len();
        assert(s[j] == ']');
        assert(ps_list(s, i) == Some((seq![ts[0]], j)));
        assert(seq![ts[0]] =~= ts);
    } else {
        let rest = encode_list(ts.drop_first());
        let r1 = ","@ + rest;
        assert(enc =~= et0 + r1);
        lemma_split(s, i, et0, r1);
        let j = i + et0.len();
        lemma_split(s, j, ","@, rest);
        assert(s[j] == ',') by {
            assert(s.subrange(j, j + 1)[0] == ","@[0]);
        }
        lemma_rt_task(s, i, ts[0]);
        lemma_rt_list(s, j + 1, ts.drop_first());
        assert(ps_list(s, j + 1) == Some((ts.drop_first(), i + enc.len())));
        assert(ps_list(s, i) == Some((seq![ts[0]] + ts.drop_first(), i + enc.len())));
        assert(seq![ts[0]] + ts.drop_first() =~= ts);
    }
}

/// The storage round trip: parsing the canonical document of any
/// collection yields exactly that collection back, so a `save`
/// followed by a `load` reproduces every description, time and
/// completion flag.
pub proof fn lemma_storage_round_trip(ts: Seq<TaskView>)
    ensures
        ps_doc(encode_tasks(ts)) == Some(ts),
        load_spec(Some(encode_tasks(ts))) == Ok::<Seq<TaskView>, LoadError>(ts),
{
    reveal_strlit("{\"tasks\":[");
    reveal_strlit("]}");
    reveal_strlit("{\"desc\":\"");
    let s_h = "{\"tasks\":["@;
    let s_t = "]}"@;
    let el = encode_list(ts);
    let s = encode_tasks(ts);
    let r1 = el + s_t;
    assert(s =~= s_h + r1);
    assert(s.subrange(0, (s_h.len() + r1.len()) as int) =~= s);
    lemma_split(s, 0, s_h, r1);
    let j0: int = s_h.len() as int;
    assert(j0 == 10);
    lemma_split(s, j0, el, s_t);
    let j: int = j0 + el.len();
    assert(s[j] == ']') by {
        assert(s.subrange(j, j + 2)[0] == s_t[0]);
    }
    assert(s[j + 1] == '}') by {
        assert(s.subrange(j, j + 2)[1] == s_t[1]);
    }
    assert(ps_lit(s, 0, s_h) == Some(j0));
    if ts.len() == 0 {
        assert(el =~= Seq::<char>::empty());
        assert(j == j0);
        assert(s.len() == j0 + 2);
        assert(ps_doc(s) == Some(Seq::<TaskView>::empty()));
        assert(Seq::<TaskView>::empty() =~= ts);
    } else {
        assert(s[j0] == '{') by {
            assert(el[0] == encode_task(ts[0])[0]);
            assert(encode_task(ts[0])[0] == "{\"desc\":\""@[0]);
            assert(s.subrange(j0, j0 + el.len())[0] == el[0]);
        }
        lemma_rt_list(s, j0, ts);
        assert(ps_lit(s, j, s_t) == Some(j + 2));
        assert(j + 2 == s.len());
        assert(ps_doc(s) == Some(ts));
    }
}

/// Recognize `lit` at position `i` of `s`.
fn p_lit(s: &str, i: usize, lit: &str) -> (r: Option<usize>)
    ensures
        match r {
            Some(j) => ps_lit(s@, i as int, lit@) == Some(j as int),
            None => ps_lit(s@, i as int, lit@) is None,
        },
{
    let n = s.unicode_len();
    let m = lit.unicode_len();
    if i > n || m > n - i {
        return None;
    }
    let mut k: usize = 0;
    while k < m
        invariant
            n == s@.len(),
            m == lit@.len(),
            i + m <= n,
            0 <= k <= m,
            forall|t: int| 0 <= t < k ==> s@[i + t] == lit@[t],
        decreases m - k,
    {
        if s.get_char(i + k) != lit.get_char(k) {
            proof {
                assert(s@.subrange(i as int, i + m)[k as int] != lit@[k as int]);
            }
            return None;
        }
        k = k + 1;
    }
    proof {
        assert(s@.subrange(i as int, i + m) =~= lit@);
    }
    Some(i + m)
}

/// Read an escaped string body through its closing quote.
fn p_strbody(s: &str, i: usize) -> (r: Option<(String, usize)>)
    ensures
        match r {
            Some(dj) => ps_strbody(s@, i as int) == Some((dj.0@, dj.1 as int)),
            None => ps_strbody(s@, i as int) is None,
        },
    decreases s@.len() - i,
{
    let n = s.unicode_len();
    if i >= n {
        return None;
    }
    let c = s.get_char(i);
    if c == '"' {
        return Some((String::new(), i + 1));
    }
    if c == '\\' {
        if i + 1 < n {
            let c2 = s.get_char(i + 1);
            if c2 == '"' || c2 == '\\' {
                match p_strbody(s, i + 2) {
                    Some((d, j)) => {
                        proof {
                            reveal_strlit("\"");
                            reveal_strlit("\\");
                        }
                        let mut out = if c2 == '"' {
                            String::from_str("\"")
                        } else {
                            String::from_str("\\")
                        };
                        out.append(d.as_str());
                        proof {
                            assert(out@ =~= seq![c2] + d@);
                        }
                        return Some((out, j));
                    },
                    None => {
                        return None;
                    },
                }
            }
        }
        return None;
    }
    match p_strbody(s, i + 1) {
        Some((d, j)) => {
            let mut out = String::from_str(s.substring_char(i, i + 1));
            out.append(d.as_str());
            proof {
                assert(out@ =~= seq![c] + d@);
            }
            Some((out, j))
        },
        None => None,
    }
}

/// Read a canonical decimal byte.
fn p_num(s: &str, i: usize) -> (r: Option<(u8, usize)>)
    ensures
        match r {
            Some(vj) => ps_num(s@, i as int) == Some((vj.0, vj.1 as int)),
            None => ps_num(s@, i as int) is None,
        },
{
    let n = s.unicode_len();
    if i >= n {
        return None;
    }
    let u = s.get_char(i) as u32;
    if u < 48 || u > 57 {
        return None;
    }
    if u == 48 {
        if i + 1 < n {
            let u1 = s.get_char(i + 1) as u32;
            if 48 <= u1 && u1 <= 57 {
                return None;
            }
        }
        return Some((0, i + 1));
    }
    let d1: u32 = u - 48;
    if i + 1 < n {
        let u1 = s.get_char(i + 1) as u32;
        if 48 <= u1 && u1 <= 57 {
            let d2: u32 = d1 * 10 + (u1 - 48);
            if i + 2 < n {
                let u2 = s.get_char(i + 2) as u32;
                if 48 <= u2 && u2 <= 57 {
                    let d3: u32 = d2 * 10 + (u2 - 48);
                    if i + 3 < n {
                        let u3 = s.get_char(i + 3) as u32;
                        if 48 <= u3 && u3 <= 57 {
                            return None;
                        }
                    }
                    if d3 <= 255 {
                        return Some((d3 as u8, i + 3));
                    } else {
                        return None;
                    }
                }
            }
            return Some((d2 as u8, i + 2));
        }
    }
    Some((d1 as u8, i + 1))
}

/// Read `null` or a `[hour,minute]` pair.
fn p_opt_time(s: &str, i: usize) -> (r: Option<(Option<(u8, u8)>, usize)>)
    ensures
        match r {
            Some(oj) => ps_opt_time(s@, i as int) == Some((oj.0, oj.1 as int)),
            None => ps_opt_time(s@, i as int) is None,
        },
{
    if let Some(j) = p_lit(s, i, "null") {
        return Some((None, j));
    }
    let n = s.unicode_len();
    if i >= n {
        return None;
    }
    if s.get_char(i) != '[' {
        return None;
    }
    match p_num(s, i + 1) {
        None => None,
        Some((h, j1)) => {
            if j1 >= n {
                return None;
            }
            if s.get_char(j1) != ',' {
                return None;
            }
            match p_num(s, j1 + 1) {
                None => None,
                Some((m, j2)) => {
                    if j2 >= n {
                        return None;
                    }
                    if s.get_char(j2) != ']' {
                        return None;
                    }
                    Some((Some((h, m)), j2 + 1))
                },
            }
        },
    }
}

fn p_bool(s: &str, i: usize) -> (r: Option<(bool, usize)>)
    ensures
        match r {
            Some(bj) => ps_bool(s@, i as int) == Some((bj.0, bj.1 as int)),
            None => ps_bool(s@, i as int) is None,
        },
{
    if let Some(j) = p_lit(s, i, "true") {
        return Some((true, j));
    }
    match p_lit(s, i, "false") {
        Some(j) => Some((false, j)),
        None => None,
    }
}

/// Read one task record.
fn p_task(s: &str, i: usize) -> (r: Option<(crate::task::Task, usize)>)
    ensures
        match r {
            Some(tj) => ps_task(s@, i as int) == Some((tj.0@, tj.1 as int)),
            None => ps_task(s@, i as int) is None,
        },
{
    match p_lit(s, i, "{\"desc\":\"") {
        None => None,
        Some(j0) => match p_strbody(s, j0) {
            None => None,
            Some((desc, j1)) => match p_lit(s, j1, ",\"start_time\":") {
                None => None,
                Some(j2) => match p_opt_time(s, j2) {
                    None => None,
                    Some((start_time, j3)) => match p_lit(s, j3, ",\"end_time\":") {
                        None => None,
                        Some(j4) => match p_opt_time(s, j4) {
                            None => None,
                            Some((end_time, j5)) => match p_lit(s, j5, ",\"completed\":") {
                                None => None,
                                Some(j6) => match p_bool(s, j6) {
                                    None => None,
                                    Some((completed, j7)) => match p_lit(s, j7, "}") {
                                        None => None,
                                        Some(j8) => Some(
                                            (
                                                crate::task::Task {
                                                    desc,
                                                    start_time,
                                                    end_time,
                                                    completed,
                                                },
                                                j8,
                                            ),
                                        ),
                                    },
                                },
                            },
                        },
                    },
                },
            },
        },
    }
}

/// Read one or more comma-separated task records.
fn p_list(s: &str, i: usize) -> (r: Option<(Vec<crate::task::Task>, usize)>)
    ensures
        match r {
            Some(vj) => ps_list(s@, i as int) == Some((crate::tasks::views_of(vj.0@), vj.1 as int)),
            None => ps_list(s@, i as int) is None,
        },
    decreases s@.len() - i,
{
    let n = s.unicode_len();
    match p_task(s, i) {
        None => None,
        Some((t, j)) => {
            if !(i < j && j <= n) {
                return None;
            }
            if j < n && s.get_char(j) == ',' {
                match p_list(s, j + 1) {
                    None => None,
                    Some((rest, k)) => {
                        let mut out = rest;
                        out.insert(0, t);
                        proof {
                            assert(crate::tasks::views_of(out@) =~= seq![t@]
                                + crate::tasks::views_of(out@.drop_first()));
                            assert(out@.drop_first() =~= out@.subrange(1, out@.len() as int));
                        }
                        Some((out, k))
                    },
                }
            } else {
                let mut out: Vec<crate::task::Task> = Vec::new();
                out.push(t);
                proof {
                    assert(crate::tasks::views_of(out@) =~= seq![t@]);
                }
                Some((out, j))
            }
        },
    }
}

/// The view of the optional store content.
pub open spec fn content_view(c: Option<&str>) -> Option<Seq<char>> {
    match c {
        Some(s) => Some(s@),
        None => None,
    }
}

/// What loading yields for every possible store content: no content
/// is an empty collection, a canonical document is its collection,
/// anything else is corrupt.
pub open spec fn load_spec(content: Option<Seq<char>>) -> Result<Seq<TaskView>, LoadError> {
    match content {
        None => Ok(Seq::empty()),
        Some(s) => match ps_doc(s) {
            Some(ts) => Ok(ts),
            None => Err(LoadError::Corrupt),
        },
    }
}

impl Tasks {
    /// Load a collection from the store's content for its key: absent
    /// content is an empty collection, content that is not a canonical
    /// document is corrupt.
    pub fn get_tasks(content: Option<&str>) -> (r: Result<Tasks, LoadError>)
        ensures
            match r {
                Ok(t) => load_spec(content_view(content)) == Ok::<Seq<TaskView>, LoadError>(t@),
                Err(e) => load_spec(content_view(content)) == Err::<Seq<TaskView>, LoadError>(e),
            },
    {
        let s = match content {
            None => {
                return Ok(Tasks::new());
            },
            Some(s) => s,
        };
        let j0 = match p_lit(s, 0, "{\"tasks\":[") {
            None => {
                return Err(LoadError::Corrupt);
            },
            Some(j0) => j0,
        };
        let n = s.unicode_len();
        if j0 < n && s.get_char(j0) == ']' {
            if n - j0 == 2 && s.get_char(j0 + 1) == '}' {
                let r = Tasks { tasks: Vec::new() };
                proof {
                    assert(r@ =~= Seq::<TaskView>::empty());
                }
                Ok(r)
            } else {
                Err(LoadError::Corrupt)
            }
        } else {
            match p_list(s, j0) {
                None => Err(LoadError::Corrupt),
                Some((v, j)) => match p_lit(s, j, "]}") {
                    Some(k) => if k == n {
                        Ok(Tasks { tasks: v })
                    } else {
                        Err(LoadError::Corrupt)
                    },
                    None => Err(LoadError::Corrupt),
                },
            }
        }
    }

    /// Serialize the collection into its canonical document, in the
    /// current sequence order.
    pub fn to_json(&self) -> (r: String)
        ensures
            r@ == encode_tasks(self@),
    {
        let mut out = String::new();
        out.append("{\"tasks\":[");
        let n = self.tasks.len();
        let mut i: usize = 0;
        proof {
            assert(self@.subrange(0, 0) =~= Seq::<TaskView>::empty());
        }
        while i < n
            invariant
                n == self@.len(),
                0 <= i <= n,
                out@ == "{\"tasks\":["@ + encode_list(self@.subrange(0, i as int)),
            decreases n - i,
        {
            proof {
                assert(self@.subrange(0, i + 1) =~= self@.subrange(0, i as int).push(
                    self@[i as int],
                ));
                lemma_encode_list_snoc(self@.subrange(0, i as int), self@[i as int]);
            }
            if i > 0 {
                out.append(",");
            }
            push_task(&mut out, &self.tasks[i]);
            assert(out@ =~= "{\"tasks\":["@ + encode_list(self@.subrange(0, i + 1)));
            i = i + 1;
        }
        proof {
            assert(self@.subrange(0, n as int) =~= self@);
        }
        out.append("]}");
        assert(out@ =~= encode_tasks(self@));
        out
    }
}

} // verus!
