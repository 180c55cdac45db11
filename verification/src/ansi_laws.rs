//! What reading gives back of writing: the parser reads each tag that the
//! writer writes, and every text written between tags.
use vstd::prelude::*;

use crate::ansi::{
    AnsiTag, ANSI_END, ANSI_START, code_limit, code_tag, events_from, find_end, lemma_split_semi_len,
    lemma_tag_of_number, scan, sgr_number, split_semi, tag_code, tag_item, tag_sequence, text_item,
    try_code, ansi_events, styled, tag_style,
};
use crate::style::{Color, Modifier, Style};
use crate::decimal::{decimal, lemma_decimal, lemma_decimal_chars, lemma_parse_decimal, is_digit};

verus! {

/// The chars that `events` are written as: each text as it is, each tag as its
/// escape sequence.
pub open spec fn render(events: Seq<(Option<AnsiTag>, Seq<char>)>) -> Seq<char>
    decreases events.len(),
{
    if events.len() == 0 {
        Seq::empty()
    } else {
        let head = match events[0].0 {
            Some(t) => tag_sequence(t),
            None => events[0].1,
        };
        head + render(events.drop_first())
    }
}

/// Pieces that the parser can give back: texts are not empty, hold no escape
/// char and never follow one another; tags carry no text.
pub open spec fn well_formed_events(events: Seq<(Option<AnsiTag>, Seq<char>)>) -> bool {
    forall|i: int|
        0 <= i < events.len() ==> {
            &&& (#[trigger] events[i]).0 is Some ==> events[i].1.len() == 0
            &&& events[i].0 is None ==> events[i].1.len() > 0 && !events[i].1.contains(
                ANSI_START,
            )
            &&& events[i].0 is None && i + 1 < events.len() ==> events[i + 1].0 is Some
        }
}

proof fn lemma_split_no_semi(s: Seq<char>)
    requires
        !s.contains(';'),
    ensures
        split_semi(s) == seq![s],
    decreases s.len(),
{
    if s.len() > 0 {
        let p = s.drop_last();
        assert(!p.contains(';')) by {
            if p.contains(';') {
                let k = choose|k: int| 0 <= k < p.len() && p[k] == ';';
                assert(s[k] == ';');
            }
        }
        lemma_split_no_semi(p);
        assert(s.last() != ';') by {
            assert(s[s.len() - 1] == s.last());
        }
        assert(p.push(s.last()) =~= s);
    } else {
        assert(s =~= Seq::<char>::empty());
    }
}

proof fn lemma_split_append(a: Seq<char>, b: Seq<char>)
    requires
        !b.contains(';'),
    ensures
        split_semi(a + seq![';'] + b) == split_semi(a).push(b),
    decreases b.len(),
{
    lemma_split_semi_len(a);
    if b.len() == 0 {
        let s = a + seq![';'];
        assert(s.drop_last() =~= a);
        assert(s.last() == ';');
        assert(a + seq![';'] + b =~= s);
        assert(split_semi(s) == split_semi(a).push(Seq::<char>::empty()));
        assert(b =~= Seq::<char>::empty());
    } else {
        let s = a + seq![';'] + b;
        let bp = b.drop_last();
        assert(!bp.contains(';')) by {
            if bp.contains(';') {
                let k = choose|k: int| 0 <= k < bp.len() && bp[k] == ';';
                assert(b[k] == ';');
            }
        }
        lemma_split_append(a, bp);
        assert(s.drop_last() =~= a + seq![';'] + bp);
        assert(s.last() == b.last());
        assert(b.last() != ';') by {
            assert(b[b.len() - 1] == b.last());
        }
        assert(bp.push(b.last()) =~= b);
        let prev = split_semi(a).push(bp);
        assert(split_semi(s) == prev.update(prev.len() - 1, prev.last().push(s.last())));
        assert(prev.update(prev.len() - 1, prev.last().push(s.last())) =~= split_semi(a).push(b));
    }
}

proof fn lemma_no_semi_two(x: char, y: char)
    requires
        x != ';',
        y != ';',
    ensures
        !seq![x, y].contains(';'),
{
    if seq![x, y].contains(';') {
        let k = choose|k: int| 0 <= k < 2 && seq![x, y][k] == ';';
        assert(k == 0 || k == 1);
    }
}

proof fn lemma_no_semi_one(x: char)
    requires
        x != ';',
    ensures
        !seq![x].contains(';'),
{
    if seq![x].contains(';') {
        let k = choose|k: int| 0 <= k < 1 && seq![x][k] == ';';
        assert(k == 0);
    }
}

/// The code of every tag reads back as that tag.
#[verifier::rlimit(40)]
pub proof fn law_code_reads_back(t: AnsiTag)
    ensures
        code_tag(tag_code(t)) == Some(t),
{
    let semi = seq![';'];
    match t {
        AnsiTag::Fg256(n) | AnsiTag::Bg256(n) => {
            let a = if t is Fg256 {
                seq!['3', '8']
            } else {
                seq!['4', '8']
            };
            let d = decimal(n as nat);
            lemma_decimal_chars(n as nat, ';');
            lemma_parse_decimal(n as nat, 255);
            lemma_no_semi_two(a[0], a[1]);
            lemma_no_semi_one('5');
            lemma_split_no_semi(a);
            lemma_split_append(a, seq!['5']);
            lemma_split_append(a + semi + seq!['5'], d);
            assert(tag_code(t) =~= a + semi + seq!['5'] + semi + d);
            assert(tag_code(t)[2] == ';');
            let parts = split_semi(tag_code(t));
            assert(parts =~= seq![a, seq!['5'], d]);
        },
        AnsiTag::FgTrueColor(r, g, b) | AnsiTag::BgTrueColor(r, g, b) => {
            let a = if t is FgTrueColor {
                seq!['3', '8']
            } else {
                seq!['4', '8']
            };
            let dr = decimal(r as nat);
            let dg = decimal(g as nat);
            let db = decimal(b as nat);
            lemma_decimal_chars(r as nat, ';');
            lemma_decimal_chars(g as nat, ';');
            lemma_decimal_chars(b as nat, ';');
            lemma_parse_decimal(r as nat, 255);
            lemma_parse_decimal(g as nat, 255);
            lemma_parse_decimal(b as nat, 255);
            lemma_no_semi_two(a[0], a[1]);
            lemma_no_semi_one('2');
            lemma_split_no_semi(a);
            lemma_split_append(a, seq!['2']);
            let p2 = a + semi + seq!['2'];
            lemma_split_append(p2, dr);
            let p3 = p2 + semi + dr;
            lemma_split_append(p3, dg);
            let p4 = p3 + semi + dg;
            lemma_split_append(p4, db);
            assert(tag_code(t) =~= p4 + semi + db);
            assert(tag_code(t)[2] == ';');
            let parts = split_semi(tag_code(t));
            assert(parts =~= seq![a, seq!['2'], dr, dg, db]);
        },
        _ => {
            let n = sgr_number(t).unwrap();
            lemma_decimal_chars(n, ';');
            lemma_parse_decimal(n, 255);
            lemma_tag_of_number(t);
        },
    }
}

/// The code of a tag holds no `m` and has at most 16 chars.
pub proof fn lemma_code_shape(t: AnsiTag)
    ensures
        !tag_code(t).contains(ANSI_END),
        tag_code(t).len() <= 16,
{
    let code = tag_code(t);
    match t {
        AnsiTag::Fg256(n) | AnsiTag::Bg256(n) => {
            lemma_decimal(n as nat);
            lemma_decimal_chars(n as nat, ANSI_END);
        },
        AnsiTag::FgTrueColor(r, g, b) | AnsiTag::BgTrueColor(r, g, b) => {
            lemma_decimal(r as nat);
            lemma_decimal(g as nat);
            lemma_decimal(b as nat);
            lemma_decimal_chars(r as nat, ANSI_END);
            lemma_decimal_chars(g as nat, ANSI_END);
            lemma_decimal_chars(b as nat, ANSI_END);
        },
        _ => {
            lemma_decimal(sgr_number(t).unwrap());
            lemma_decimal_chars(sgr_number(t).unwrap(), ANSI_END);
        },
    }
    if code.contains(ANSI_END) {
        let k = choose|k: int| 0 <= k < code.len() && code[k] == ANSI_END;
        match t {
            AnsiTag::Fg256(n) | AnsiTag::Bg256(n) => {
                if k >= 5 {
                    assert(decimal(n as nat)[k - 5] == ANSI_END);
                }
            },
            AnsiTag::FgTrueColor(r, g, b) | AnsiTag::BgTrueColor(r, g, b) => {
                let dr = decimal(r as nat);
                let dg = decimal(g as nat);
                let db = decimal(b as nat);
                if 5 <= k < 5 + dr.len() {
                    assert(dr[k - 5] == ANSI_END);
                } else if 6 + dr.len() <= k < 6 + dr.len() + dg.len() {
                    assert(dg[k - 6 - dr.len()] == ANSI_END);
                } else if 7 + dr.len() + dg.len() <= k {
                    assert(db[k - 7 - dr.len() - dg.len()] == ANSI_END);
                }
            },
            _ => {
                assert(decimal(sgr_number(t).unwrap())[k] == ANSI_END);
            },
        }
    }
}

proof fn lemma_find_end_at(s: Seq<char>, from: int, e: int, limit: int)
    requires
        0 <= from <= e < limit <= s.len(),
        s[e] == ANSI_END,
        forall|k: int| from <= k < e ==> s[k] != ANSI_END,
    ensures
        find_end(s, from, limit) == Some(e),
    decreases e - from,
{
    if from < e {
        lemma_find_end_at(s, from + 1, e, limit);
    }
}

/// At a position where the escape sequence of `t` stands, the parser reads `t`.
proof fn lemma_tag_at(s: Seq<char>, a: int, t: AnsiTag)
    requires
        0 <= a,
        a + tag_sequence(t).len() <= s.len(),
        s.subrange(a, a + tag_sequence(t).len()) == tag_sequence(t),
    ensures
        try_code(s, a) == Ok::<(int, AnsiTag), int>((a + tag_sequence(t).len(), t)),
        scan(s, a) == Some((a, a + tag_sequence(t).len(), t)),
{
    let seqt = tag_sequence(t);
    let code = tag_code(t);
    lemma_code_shape(t);
    law_code_reads_back(t);
    let e = a + 2 + code.len();
    assert(s[a] == seqt[0]);
    assert(s[a + 1] == seqt[1]);
    assert(s[e] == seqt[2 + code.len() as int]);
    assert forall|k: int| a + 2 <= k < e implies s[k] != ANSI_END by {
        assert(s[k] == seqt[k - a]);
        assert(seqt[k - a] == code[k - a - 2]);
    }
    lemma_find_end_at(s, a + 2, e, code_limit(s, a + 2));
    assert forall|j: int| 0 <= j < code.len() implies s.subrange(a + 2, e)[j] == code[j] by {
        assert(s[a + 2 + j] == seqt[2 + j]);
    }
    assert(s.subrange(a + 2, e) =~= code);
}

proof fn lemma_scan_skip(s: Seq<char>, p: int, q: int)
    requires
        0 <= p <= q <= s.len(),
        forall|k: int| p <= k < q ==> s[k] != ANSI_START,
    ensures
        scan(s, p) == scan(s, q),
    decreases q - p,
{
    if p < q {
        lemma_scan_skip(s, p + 1, q);
    }
}

proof fn lemma_wf_drop_first(events: Seq<(Option<AnsiTag>, Seq<char>)>)
    requires
        well_formed_events(events),
        events.len() > 0,
    ensures
        well_formed_events(events.drop_first()),
{
    let rest = events.drop_first();
    assert forall|i: int| 0 <= i < rest.len() implies {
        &&& (#[trigger] rest[i]).0 is Some ==> rest[i].1.len() == 0
        &&& rest[i].0 is None ==> rest[i].1.len() > 0 && !rest[i].1.contains(ANSI_START)
        &&& rest[i].0 is None && i + 1 < rest.len() ==> rest[i + 1].0 is Some
    } by {
        assert(rest[i] == events[i + 1]);
        if i + 1 < rest.len() {
            assert(rest[i + 1] == events[i + 2]);
        }
    }
}

/// The parser reads a tag written at `a`, then whatever follows it.
proof fn lemma_events_tag(s: Seq<char>, a: int, t: AnsiTag, rest: Seq<(Option<AnsiTag>, Seq<char>)>)
    requires
        0 <= a <= s.len(),
        s.subrange(a, s.len() as int) == tag_sequence(t) + render(rest),
        events_from(s, a + tag_sequence(t).len(), a + tag_sequence(t).len()) == rest,
    ensures
        events_from(s, a, a) == seq![tag_item(t)] + rest,
{
    let seqt = tag_sequence(t);
    let a2 = a + seqt.len();
    assert(s.subrange(a, a2) =~= s.subrange(a, s.len() as int).subrange(0, seqt.len() as int));
    assert(s.subrange(a, a2) =~= seqt);
    lemma_tag_at(s, a, t);
    assert(events_from(s, a, a) =~= seq![tag_item(t)] + rest);
}

/// The parser reads a text written at `a` that ends at `a2`, then a tag
/// written there, then whatever follows it.
proof fn lemma_events_text_tag(
    s: Seq<char>,
    a: int,
    x: Seq<char>,
    t: AnsiTag,
    rest2: Seq<(Option<AnsiTag>, Seq<char>)>,
)
    requires
        0 <= a <= s.len(),
        x.len() > 0,
        !x.contains(ANSI_START),
        s.subrange(a, s.len() as int) == x + tag_sequence(t) + render(rest2),
        events_from(
            s,
            a + x.len() + tag_sequence(t).len(),
            a + x.len() + tag_sequence(t).len(),
        ) == rest2,
    ensures
        events_from(s, a, a) == seq![text_item(x), tag_item(t)] + rest2,
{
    let seqt = tag_sequence(t);
    let a2 = a + x.len();
    let a3 = a2 + seqt.len();
    let tail = s.subrange(a, s.len() as int);
    assert(s.subrange(a, a2) =~= tail.subrange(0, x.len() as int));
    assert(s.subrange(a, a2) =~= x);
    assert forall|k: int| a <= k < a2 implies s[k] != ANSI_START by {
        assert(s[k] == x[k - a]);
    }
    lemma_scan_skip(s, a, a2);
    assert(s.subrange(a2, a3) =~= tail.subrange(x.len() as int, (x.len() + seqt.len()) as int));
    assert(s.subrange(a2, a3) =~= seqt);
    lemma_tag_at(s, a2, t);
    assert(events_from(s, a, a) =~= seq![text_item(x), tag_item(t)] + rest2);
}

/// Reading what `events` are written as, from position `a` of `s` on, gives
/// `events` back.
#[verifier::rlimit(30)]
proof fn lemma_events_render(s: Seq<char>, a: int, events: Seq<(Option<AnsiTag>, Seq<char>)>)
    requires
        0 <= a <= s.len(),
        s.subrange(a, s.len() as int) == render(events),
        well_formed_events(events),
    ensures
        events_from(s, a, a) == events,
    decreases events.len(),
{
    if events.len() == 0 {
        assert(s.subrange(a, s.len() as int).len() == 0);
        assert(scan(s, a) is None);
        assert(events_from(s, a, a) =~= events);
    } else {
        let rest = events.drop_first();
        lemma_wf_drop_first(events);
        let head = events[0];
        assert(events =~= seq![head] + rest);
        match head.0 {
            Some(t) => {
                let seqt = tag_sequence(t);
                let a2 = a + seqt.len();
                assert(render(events) == seqt + render(rest));
                let tail = s.subrange(a, s.len() as int);
                assert(s.subrange(a2, s.len() as int) =~= tail.subrange(seqt.len() as int, tail.len() as int));
                assert(s.subrange(a2, s.len() as int) =~= render(rest));
                lemma_events_render(s, a2, rest);
                lemma_events_tag(s, a, t, rest);
                assert(head.1 =~= Seq::<char>::empty());
                assert(head == tag_item(t));
            },
            None => {
                let x = head.1;
                assert(render(events) == x + render(rest));
                assert(head == text_item(x));
                if rest.len() == 0 {
                    let a2 = a + x.len();
                    assert(render(rest) =~= Seq::<char>::empty());
                    assert(s.subrange(a, s.len() as int) =~= x);
                    assert(a2 == s.len());
                    assert forall|k: int| a <= k < a2 implies s[k] != ANSI_START by {
                        assert(s[k] == x[k - a]);
                    }
                    lemma_scan_skip(s, a, a2);
                    assert(scan(s, a2) is None);
                    assert(events_from(s, a, a) =~= seq![text_item(x)]);
                } else {
                    let t = rest[0].0.unwrap();
                    let seqt = tag_sequence(t);
                    let rest2 = rest.drop_first();
                    lemma_wf_drop_first(rest);
                    assert(render(rest) == seqt + render(rest2));
                    let a3 = a + x.len() + seqt.len();
                    let tail = s.subrange(a, s.len() as int);
                    assert(tail =~= x + seqt + render(rest2));
                    assert(s.subrange(a3, s.len() as int) =~= tail.subrange(
                        (x.len() + seqt.len()) as int,
                        tail.len() as int,
                    ));
                    assert(s.subrange(a3, s.len() as int) =~= render(rest2));
                    lemma_events_render(s, a3, rest2);
                    lemma_events_text_tag(s, a, x, t, rest2);
                    assert(rest[0].1 =~= Seq::<char>::empty());
                    assert(rest =~= seq![tag_item(t)] + rest2);
                    assert(events =~= seq![text_item(x), tag_item(t)] + rest2);
                }
            },
        }
    }
}

/// Reading back what a sequence of texts and tags is written as gives that
/// sequence, where its texts are not empty, hold no escape char, and no two
/// texts follow one another.
pub proof fn law_render_reads_back(events: Seq<(Option<AnsiTag>, Seq<char>)>)
    requires
        well_formed_events(events),
    ensures
        ansi_events(render(events)) == events,
{
    let s = render(events);
    assert(s.subrange(0, s.len() as int) =~= s);
    lemma_events_render(s, 0, events);
}

/// The escape sequence of a tag reads back as that tag alone.
pub proof fn law_tag_reads_back(t: AnsiTag)
    ensures
        ansi_events(tag_sequence(t)) == seq![tag_item(t)],
{
    let events = seq![tag_item(t)];
    assert(render(events.drop_first()) =~= Seq::<char>::empty());
    assert(render(events) =~= tag_sequence(t));
    law_render_reads_back(events);
}

/// Text without escape chars reads back as itself, in one piece.
pub proof fn law_plain_text_reads_back(text: Seq<char>)
    requires
        text.len() > 0,
        !text.contains(ANSI_START),
    ensures
        ansi_events(text) == seq![text_item(text)],
{
    let events = seq![text_item(text)];
    assert(render(events.drop_first()) =~= Seq::<char>::empty());
    assert(render(events) =~= text);
    law_render_reads_back(events);
}

/// The pieces that `events` read back as: empty texts dropped, texts that
/// follow one another merged into one, and tags kept.
pub open spec fn merged(events: Seq<(Option<AnsiTag>, Seq<char>)>) -> Seq<(Option<AnsiTag>, Seq<char>)>
    decreases events.len(),
{
    if events.len() == 0 {
        Seq::empty()
    } else {
        let rest = merged(events.drop_first());
        match events[0].0 {
            Some(t) => seq![tag_item(t)] + rest,
            None => if events[0].1.len() == 0 {
                rest
            } else if rest.len() > 0 && rest[0].0 is None {
                seq![text_item(events[0].1 + rest[0].1)] + rest.drop_first()
            } else {
                seq![text_item(events[0].1)] + rest
            },
        }
    }
}

/// Pieces whose texts hold no escape char.
pub open spec fn escape_free(events: Seq<(Option<AnsiTag>, Seq<char>)>) -> bool {
    forall|i: int| 0 <= i < events.len() ==> (#[trigger] events[i]).0 is None ==> !events[i].1.contains(ANSI_START)
}

proof fn lemma_render_cons(e: (Option<AnsiTag>, Seq<char>), es: Seq<(Option<AnsiTag>, Seq<char>)>)
    ensures
        render(seq![e] + es) == (match e.0 {
            Some(t) => tag_sequence(t),
            None => e.1,
        }) + render(es),
{
    assert((seq![e] + es).drop_first() =~= es);
    assert((seq![e] + es)[0] == e);
}

proof fn lemma_no_start_concat(x: Seq<char>, y: Seq<char>)
    requires
        !x.contains(ANSI_START),
        !y.contains(ANSI_START),
    ensures
        !(x + y).contains(ANSI_START),
{
    if (x + y).contains(ANSI_START) {
        let k = choose|k: int| 0 <= k < (x + y).len() && (x + y)[k] == ANSI_START;
        if k < x.len() {
            assert(x[k] == ANSI_START);
        } else {
            assert(y[k - x.len()] == ANSI_START);
        }
    }
}

/// Merging keeps what the pieces are written as, and gives pieces that the
/// parser can give back.
proof fn lemma_merged(events: Seq<(Option<AnsiTag>, Seq<char>)>)
    requires
        escape_free(events),
    ensures
        render(merged(events)) == render(events),
        well_formed_events(merged(events)),
    decreases events.len(),
{
    if events.len() > 0 {
        let rest_e = events.drop_first();
        assert(escape_free(rest_e)) by {
            assert forall|i: int| 0 <= i < rest_e.len() && (#[trigger] rest_e[i]).0 is None implies !rest_e[i].1.contains(
                ANSI_START,
            ) by {
                assert(rest_e[i] == events[i + 1]);
            }
        }
        lemma_merged(rest_e);
        let rest = merged(rest_e);
        let e = events[0];
        assert(events =~= seq![e] + rest_e);
        lemma_render_cons(e, rest_e);
        let m = merged(events);
        match e.0 {
            Some(t) => {
                lemma_render_cons(tag_item(t), rest);
                assert forall|i: int| 0 <= i < m.len() implies {
                    &&& (#[trigger] m[i]).0 is Some ==> m[i].1.len() == 0
                    &&& m[i].0 is None ==> m[i].1.len() > 0 && !m[i].1.contains(ANSI_START)
                    &&& m[i].0 is None && i + 1 < m.len() ==> m[i + 1].0 is Some
                } by {
                    if i > 0 {
                        assert(m[i] == rest[i - 1]);
                        if i + 1 < m.len() {
                            assert(m[i + 1] == rest[i]);
                        }
                    }
                }
            },
            None => {
                assert(!e.1.contains(ANSI_START)) by {
                    assert(events[0] == e);
                }
                if e.1.len() == 0 {
                    assert(e.1 + render(rest_e) =~= render(rest_e));
                } else if rest.len() > 0 && rest[0].0 is None {
                    let x = e.1 + rest[0].1;
                    let tail = rest.drop_first();
                    assert(rest =~= seq![rest[0]] + tail);
                    lemma_render_cons(rest[0], tail);
                    lemma_render_cons(text_item(x), tail);
                    assert(render(m) =~= render(events));
                    lemma_no_start_concat(e.1, rest[0].1);
                    assert forall|i: int| 0 <= i < m.len() implies {
                        &&& (#[trigger] m[i]).0 is Some ==> m[i].1.len() == 0
                        &&& m[i].0 is None ==> m[i].1.len() > 0 && !m[i].1.contains(ANSI_START)
                        &&& m[i].0 is None && i + 1 < m.len() ==> m[i + 1].0 is Some
                    } by {
                        if i > 0 {
                            assert(m[i] == rest[i]);
                            if i + 1 < m.len() {
                                assert(m[i + 1] == rest[i + 1]);
                            }
                        } else {
                            assert(m[0] == text_item(x));
                            if 1 < m.len() {
                                assert(m[1] == rest[1]);
                            }
                        }
                    }
                } else {
                    lemma_render_cons(text_item(e.1), rest);
                    assert forall|i: int| 0 <= i < m.len() implies {
                        &&& (#[trigger] m[i]).0 is Some ==> m[i].1.len() == 0
                        &&& m[i].0 is None ==> m[i].1.len() > 0 && !m[i].1.contains(ANSI_START)
                        &&& m[i].0 is None && i + 1 < m.len() ==> m[i + 1].0 is Some
                    } by {
                        if i > 0 {
                            assert(m[i] == rest[i - 1]);
                            if i + 1 < m.len() {
                                assert(m[i + 1] == rest[i]);
                            }
                        } else if 1 < m.len() {
                            assert(m[1] == rest[0]);
                        }
                    }
                }
            },
        }
    }
}

/// Reading back what any sequence of texts and tags is written as, where
/// the texts hold no escape char, gives that sequence with its empty texts
/// dropped and the texts that follow one another merged.
pub proof fn law_merged_reads_back(events: Seq<(Option<AnsiTag>, Seq<char>)>)
    requires
        escape_free(events),
    ensures
        ansi_events(render(events)) == merged(events),
{
    lemma_merged(events);
    law_render_reads_back(merged(events));
}

/// The escape sequences of `ts`, one after the other.
pub open spec fn tags_text(ts: Seq<AnsiTag>) -> Seq<char>
    decreases ts.len(),
{
    if ts.len() == 0 {
        Seq::empty()
    } else {
        tag_sequence(ts[0]) + tags_text(ts.drop_first())
    }
}

/// The style after the tags `ts`, in order, from `style`: a reset goes back
/// to the plain style, so the tags after the last reset are what count.
pub open spec fn tags_style(ts: Seq<AnsiTag>, style: Style) -> Style
    decreases ts.len(),
{
    if ts.len() == 0 {
        style
    } else {
        tags_style(ts.drop_first(), tag_style(style, ts[0]))
    }
}

/// The tags as parsed pieces.
pub open spec fn tag_items(ts: Seq<AnsiTag>) -> Seq<(Option<AnsiTag>, Seq<char>)> {
    ts.map_values(|t: AnsiTag| tag_item(t))
}

proof fn lemma_render_concat(a: Seq<(Option<AnsiTag>, Seq<char>)>, b: Seq<(Option<AnsiTag>, Seq<char>)>)
    ensures
        render(a + b) == render(a) + render(b),
    decreases a.len(),
{
    if a.len() == 0 {
        assert(a + b =~= b);
        assert(render(a) =~= Seq::<char>::empty());
        assert(render(a) + render(b) =~= render(b));
    } else {
        assert((a + b).drop_first() =~= a.drop_first() + b);
        assert((a + b)[0] == a[0]);
        lemma_render_concat(a.drop_first(), b);
        assert(render(a + b) =~= render(a) + render(b));
    }
}

proof fn lemma_render_tags(ts: Seq<AnsiTag>)
    ensures
        render(tag_items(ts)) == tags_text(ts),
    decreases ts.len(),
{
    if ts.len() > 0 {
        assert(tag_items(ts).drop_first() =~= tag_items(ts.drop_first()));
        lemma_render_tags(ts.drop_first());
    } else {
        assert(tag_items(ts) =~= Seq::<(Option<AnsiTag>, Seq<char>)>::empty());
    }
}

proof fn lemma_styled_tags(ts: Seq<AnsiTag>, rest: Seq<(Option<AnsiTag>, Seq<char>)>, style: Style)
    ensures
        styled(tag_items(ts) + rest, style) == styled(rest, tags_style(ts, style)),
    decreases ts.len(),
{
    if ts.len() == 0 {
        assert(tag_items(ts) + rest =~= rest);
    } else {
        let all = tag_items(ts) + rest;
        assert(all[0] == tag_item(ts[0]));
        assert(all.drop_first() =~= tag_items(ts.drop_first()) + rest);
        lemma_styled_tags(ts.drop_first(), rest, tag_style(style, ts[0]));
    }
}

/// Reading with styles a text `x`, then a run of at least one tag, then a
/// text `y`, where neither text holds an escape char and `y` is not empty,
/// gives `x` in the plain style (when it is not empty), then `y` in the
/// style that the run of tags selects.
pub proof fn law_styled_run(x: Seq<char>, ts: Seq<AnsiTag>, y: Seq<char>)
    requires
        !x.contains(ANSI_START),
        !y.contains(ANSI_START),
        y.len() > 0,
        ts.len() > 0,
    ensures
        styled(ansi_events(x + tags_text(ts) + y), Style::spec_new()) == (if x.len() > 0 {
            seq![(x, Style::spec_new())]
        } else {
            Seq::empty()
        }) + seq![(y, tags_style(ts, Style::spec_new()))],
{
    let ys = seq![text_item(y)];
    let tail = tag_items(ts) + ys;
    let events = if x.len() > 0 {
        seq![text_item(x)] + tail
    } else {
        tail
    };
    lemma_render_concat(tag_items(ts), ys);
    lemma_render_tags(ts);
    assert(render(ys.drop_first()) =~= Seq::<char>::empty());
    assert(render(ys) =~= y);
    if x.len() > 0 {
        lemma_render_concat(seq![text_item(x)], tail);
        let xs = seq![text_item(x)];
        assert(render(xs.drop_first()) =~= Seq::<char>::empty());
        assert(render(xs) =~= x);
    }
    assert(render(events) =~= x + tags_text(ts) + y);
    assert(well_formed_events(events)) by {
        assert forall|i: int| 0 <= i < events.len() implies {
            &&& (#[trigger] events[i]).0 is Some ==> events[i].1.len() == 0
            &&& events[i].0 is None ==> events[i].1.len() > 0 && !events[i].1.contains(ANSI_START)
            &&& events[i].0 is None && i + 1 < events.len() ==> events[i + 1].0 is Some
        } by {
            let d = if x.len() > 0 {
                1int
            } else {
                0int
            };
            if i >= d && i < d + ts.len() {
                assert(events[i] == tag_item(ts[i - d]));
            }
            if i + 1 >= d && i + 1 < d + ts.len() {
                assert(events[i + 1] == tag_item(ts[i + 1 - d]));
            }
            if i == d + ts.len() {
                assert(events[i] == text_item(y));
            }
            if d == 1 && i == 0 {
                assert(events[0] == text_item(x));
            }
        }
    }
    law_render_reads_back(events);
    lemma_styled_tags(ts, ys, Style::spec_new());
    assert(styled(ys.drop_first(), tags_style(ts, Style::spec_new())) =~= Seq::<(Seq<char>, Style)>::empty());
    if x.len() > 0 {
        assert(events[0] == text_item(x));
        assert(events.drop_first() =~= tail);
    }
}


/// The color of the eight standard SGR colors, by their offset `k` in the
/// codes 30 to 37 (foreground) and 40 to 47 (background).
pub open spec fn standard_color(k: int) -> Color {
    if k == 0 {
        Color::Black
    } else if k == 1 {
        Color::Red
    } else if k == 2 {
        Color::Green
    } else if k == 3 {
        Color::Yellow
    } else if k == 4 {
        Color::Blue
    } else if k == 5 {
        Color::Magenta
    } else if k == 6 {
        Color::Cyan
    } else {
        Color::Gray
    }
}

/// The color of the eight bright SGR colors, by their offset `k` in the
/// codes 90 to 97 (foreground) and 100 to 107 (background).
pub open spec fn bright_color(k: int) -> Color {
    if k == 0 {
        Color::DarkGray
    } else if k == 1 {
        Color::LightRed
    } else if k == 2 {
        Color::LightGreen
    } else if k == 3 {
        Color::LightYellow
    } else if k == 4 {
        Color::LightBlue
    } else if k == 5 {
        Color::LightMagenta
    } else if k == 6 {
        Color::LightCyan
    } else {
        Color::White
    }
}

/// A foreground tag: one with an SGR number in 30..=39 or 90..=97, or an
/// extended foreground color.
pub open spec fn is_foreground_tag(t: AnsiTag) -> bool {
    ||| t is Fg256
    ||| t is FgTrueColor
    ||| sgr_number(t) matches Some(n) && (30 <= n <= 39 || 90 <= n <= 97)
}

/// A background tag: one with an SGR number in 40..=49 or 100..=107, or an
/// extended background color.
pub open spec fn is_background_tag(t: AnsiTag) -> bool {
    ||| t is Bg256
    ||| t is BgTrueColor
    ||| sgr_number(t) matches Some(n) && (40 <= n <= 49 || 100 <= n <= 107)
}

/// Reading a foreground tag sets the foreground color and nothing else;
/// reading a background tag sets the background color and nothing else. The
/// color is the one the code names: `38;5;i` and `48;5;i` the indexed color
/// `i`, `38;2;r;g;b` and `48;2;r;g;b` the RGB color, 39 and 49 the terminal's
/// default, 30 + k and 40 + k the k-th standard color, 90 + k and 100 + k the
/// k-th bright one.
pub proof fn law_color_tags(s: Style, t: AnsiTag)
    ensures
        is_foreground_tag(t) ==> tag_style(s, t).bg == s.bg && tag_style(s, t).add_modifier
            == s.add_modifier && tag_style(s, t).fg is Some,
        is_background_tag(t) ==> tag_style(s, t).fg == s.fg && tag_style(s, t).add_modifier
            == s.add_modifier && tag_style(s, t).bg is Some,
        t matches AnsiTag::FgTrueColor(r, g, b) ==> tag_style(s, t).fg == Some(Color::Rgb(r, g, b)),
        t matches AnsiTag::BgTrueColor(r, g, b) ==> tag_style(s, t).bg == Some(Color::Rgb(r, g, b)),
        t matches AnsiTag::Fg256(i) ==> tag_style(s, t).fg == Some(Color::Indexed(i)),
        t matches AnsiTag::Bg256(i) ==> tag_style(s, t).bg == Some(Color::Indexed(i)),
        sgr_number(t) == Some(39nat) ==> tag_style(s, t).fg == Some(Color::Reset),
        sgr_number(t) == Some(49nat) ==> tag_style(s, t).bg == Some(Color::Reset),
        forall|k: int|
            0 <= k < 8 ==> (sgr_number(t) == Some((30 + k) as nat) ==> tag_style(s, t).fg == Some(
                standard_color(k),
            )) && (sgr_number(t) == Some((40 + k) as nat) ==> tag_style(s, t).bg == Some(
                standard_color(k),
            )) && (sgr_number(t) == Some((90 + k) as nat) ==> tag_style(s, t).fg == Some(
                bright_color(k),
            )) && (sgr_number(t) == Some((100 + k) as nat) ==> tag_style(s, t).bg == Some(
                bright_color(k),
            )),
{
}

/// Reading a reset gives the plain style; reading an attribute tag (SGR
/// numbers 1 to 29) keeps both colors and switches one modifier on (1 to 9)
/// or off (22 to 29; 25 switches both blinks off), keeping the others.
pub proof fn law_attribute_tags(s: Style, t: AnsiTag)
    ensures
        t == AnsiTag::Reset ==> tag_style(s, t) == Style::spec_new(),
        sgr_number(t) matches Some(n) && 1 <= n <= 29 ==> tag_style(s, t).fg == s.fg && tag_style(
            s,
            t,
        ).bg == s.bg,
        ({
            let m = s.add_modifier;
            let a = tag_style(s, t).add_modifier;
            &&& sgr_number(t) == Some(1nat) ==> a == Modifier { bold: true, ..m }
            &&& sgr_number(t) == Some(2nat) ==> a == Modifier { dim: true, ..m }
            &&& sgr_number(t) == Some(3nat) ==> a == Modifier { italic: true, ..m }
            &&& sgr_number(t) == Some(4nat) ==> a == Modifier { underlined: true, ..m }
            &&& sgr_number(t) == Some(5nat) ==> a == Modifier { slow_blink: true, ..m }
            &&& sgr_number(t) == Some(6nat) ==> a == Modifier { rapid_blink: true, ..m }
            &&& sgr_number(t) == Some(7nat) ==> a == Modifier { reversed: true, ..m }
            &&& sgr_number(t) == Some(8nat) ==> a == Modifier { hidden: true, ..m }
            &&& sgr_number(t) == Some(9nat) ==> a == Modifier { crossed_out: true, ..m }
            &&& sgr_number(t) == Some(22nat) ==> a == Modifier { bold: false, ..m }
            &&& sgr_number(t) == Some(23nat) ==> a == Modifier { italic: false, ..m }
            &&& sgr_number(t) == Some(24nat) ==> a == Modifier { underlined: false, ..m }
            &&& sgr_number(t) == Some(25nat) ==> a == Modifier { slow_blink: false, rapid_blink: false, ..m }
            &&& sgr_number(t) == Some(27nat) ==> a == Modifier { reversed: false, ..m }
            &&& sgr_number(t) == Some(28nat) ==> a == Modifier { hidden: false, ..m }
            &&& sgr_number(t) == Some(29nat) ==> a == Modifier { crossed_out: false, ..m }
        }),
{
}

/// A foreground tag and the background tag ten numbers above it name the
/// same color, and so do `38;...` and `48;...` with the same parameters.
pub proof fn law_foreground_background_agree(s: Style, f: AnsiTag, b: AnsiTag)
    requires
        sgr_number(f) matches Some(n) && (30 <= n <= 39 || 90 <= n <= 97) && sgr_number(b) == Some(
            (n + 10) as nat,
        ),
    ensures
        tag_style(s, f).fg == tag_style(s, b).bg,
{
}

/// The true-color and 256-color tags set the color they carry, in the slot
/// their code names.
pub proof fn law_extended_colors_agree(s: Style, r: u8, g: u8, b: u8, i: u8)
    ensures
        tag_style(s, AnsiTag::FgTrueColor(r, g, b)).fg == tag_style(s, AnsiTag::BgTrueColor(r, g, b)).bg,
        tag_style(s, AnsiTag::FgTrueColor(r, g, b)).fg == Some(Color::Rgb(r, g, b)),
        tag_style(s, AnsiTag::FgTrueColor(r, g, b)).bg == s.bg,
        tag_style(s, AnsiTag::BgTrueColor(r, g, b)).fg == s.fg,
        tag_style(s, AnsiTag::Fg256(i)).fg == tag_style(s, AnsiTag::Bg256(i)).bg,
        tag_style(s, AnsiTag::Fg256(i)).fg == Some(Color::Indexed(i)),
        tag_style(s, AnsiTag::Fg256(i)).bg == s.bg,
        tag_style(s, AnsiTag::Bg256(i)).fg == s.fg,
{
}

} // verus!
