use vstd::prelude::*;
use crate::chess::castling::{Rights, Side, SideColor};
use crate::chess::color::Color;
use crate::chess::fen::{
    castling_of, decimal, describe, describe_text, digit_char, digit_value, digits_from, fields,
    fields_scan, is_space, number, rights_from, rights_of, rights_text, Described, FENParseError,
    IntParseError,
};
use crate::chess::mailbox::{
    empty_squares, place_char, place_from, placement, placement_text, rank_text, ranks_text,
    run_text, skip_digit, skip_of, text_tail, Cursor, MailboxParseErr,
};
use crate::chess::piece::ColoredPiece;

verus! {

/// A character that stands in a field of a position string: no
/// separator, and no sign.
pub open spec fn is_plain(c: char) -> bool {
    !is_space(c) && c != '+'
}

/// Every character of `s` stands in a field.
pub open spec fn all_plain(s: Seq<char>) -> bool {
    forall|i: int| 0 <= i < s.len() ==> is_plain(#[trigger] s[i])
}

/// Reading a digit after digits that were read adds the digit to the
/// number.
pub proof fn lemma_digits_push(s: Seq<char>, acc: int, max: int, c: char)
    requires
        digits_from(s, acc, max) is Ok,
        digit_value(c) is Some,
        digits_from(s, acc, max).unwrap() * 10 + digit_value(c).unwrap() <= max,
    ensures
        digits_from(s.push(c), acc, max) == Ok::<int, IntParseError>(
            digits_from(s, acc, max).unwrap() * 10 + digit_value(c).unwrap(),
        ),
    decreases s.len(),
{
    let t = s.push(c);
    if s.len() == 0 {
        let d = digit_value(c).unwrap();
        assert(t.drop_first() =~= Seq::<char>::empty());
        assert(t[0] == c);
        assert(digits_from(s, acc, max) == Ok::<int, IntParseError>(acc));
        assert(digits_from(t.drop_first(), acc * 10 + d, max) == Ok::<int, IntParseError>(
            acc * 10 + d,
        ));
        assert(digits_from(t, acc, max) == digits_from(t.drop_first(), acc * 10 + d, max));
    } else {
        assert(digit_value(s[0]) is Some);
        let d = digit_value(s[0]).unwrap();
        assert(acc * 10 + d <= max);
        assert(digits_from(s, acc, max) == digits_from(s.drop_first(), acc * 10 + d, max));
        assert(t[0] == s[0]);
        assert(t.drop_first() =~= s.drop_first().push(c));
        lemma_digits_push(s.drop_first(), acc * 10 + d, max, c);
        assert(digits_from(t, acc, max) == digits_from(t.drop_first(), acc * 10 + d, max));
    }
}

/// The digits of a number are digits, and there is at least one.
pub proof fn lemma_decimal_plain(n: int)
    requires
        0 <= n,
    ensures
        decimal(n).len() >= 1,
        all_plain(decimal(n)),
        forall|i: int| 0 <= i < decimal(n).len() ==> digit_value(#[trigger] decimal(n)[i]) is Some,
    decreases n,
{
    if n >= 10 {
        lemma_decimal_plain(n / 10);
    }
}

/// Reading the digits of a number gives the number back.
pub proof fn lemma_number_round_trip(n: int, max: int)
    requires
        0 <= n <= max,
    ensures
        number(decimal(n), max) == Ok::<int, IntParseError>(n),
{
    lemma_decimal_plain(n);
    lemma_digits_round_trip(n, max);
    assert(is_plain(decimal(n)[0]));
}

proof fn lemma_digits_round_trip(n: int, max: int)
    requires
        0 <= n <= max,
    ensures
        digits_from(decimal(n), 0, max) == Ok::<int, IntParseError>(n),
    decreases n,
{
    if n < 10 {
        let s = decimal(n);
        assert(s =~= seq![digit_char(n)]);
        assert(s.drop_first() =~= Seq::<char>::empty());
        assert(digit_value(s[0]) == Some(n));
        assert(digits_from(s.drop_first(), n, max) == Ok::<int, IntParseError>(n));
        assert(digits_from(s, 0, max) == digits_from(s.drop_first(), 0 * 10 + n, max));
    } else {
        assert(digit_value(digit_char(n % 10)) == Some(n % 10));
        lemma_digits_round_trip(n / 10, max);
        lemma_digits_push(decimal(n / 10), 0, max, digit_char(n % 10));
    }
}

/// The castling field of a set of rights has no separator in it.
pub proof fn lemma_rights_text_plain(r: Rights)
    ensures
        rights_text(r).len() >= 1,
        all_plain(rights_text(r)),
{
}

/// Reading the castling field of a set of rights gives the set back.
pub proof fn lemma_rights_round_trip(r: Rights)
    requires
        r.wf(),
    ensures
        rights_of(rights_text(r)) == Some(r),
{
    let wh = SideColor(Color::White, Side::H);
    let wa = SideColor(Color::White, Side::A);
    let bh = SideColor(Color::Black, Side::H);
    let ba = SideColor(Color::Black, Side::A);
    let t = rights_text(r);
    let r0 = Rights(0);
    r0.lemma_ops(r0);
    let r1 = if r.holds(wh) {
        r0.plus(Rights::only(wh))
    } else {
        r0
    };
    r0.lemma_ops(Rights::only(wh));
    let r2 = if r.holds(wa) {
        r1.plus(Rights::only(wa))
    } else {
        r1
    };
    r1.lemma_ops(Rights::only(wa));
    let r3 = if r.holds(bh) {
        r2.plus(Rights::only(bh))
    } else {
        r2
    };
    r2.lemma_ops(Rights::only(bh));
    let r4 = if r.holds(ba) {
        r3.plus(Rights::only(ba))
    } else {
        r3
    };
    r3.lemma_ops(Rights::only(ba));
    assert(r4.wf());
    assert forall|sc: SideColor| r4.holds(sc) == r.holds(sc) by {
        if sc.0.is_side() {
            assert(sc == wh || sc == wa || sc == bh || sc == ba);
        }
    }
    r4.lemma_ext(r);
    let k = if r.holds(wh) {
        seq!['K']
    } else {
        Seq::<char>::empty()
    };
    let q = if r.holds(wa) {
        seq!['Q']
    } else {
        Seq::<char>::empty()
    };
    let bk = if r.holds(bh) {
        seq!['k']
    } else {
        Seq::<char>::empty()
    };
    let bq = if r.holds(ba) {
        seq!['q']
    } else {
        Seq::<char>::empty()
    };
    lemma_rights_from(bq, r3, Seq::<char>::empty(), ba, r.holds(ba));
    assert(bq + Seq::<char>::empty() =~= bq);
    assert(rights_from(bq, r3) == Some(r4));
    lemma_rights_from(bk, r2, bq, bh, r.holds(bh));
    lemma_rights_from(q, r1, bk + bq, wa, r.holds(wa));
    assert(q + (bk + bq) =~= q + bk + bq);
    lemma_rights_from(k, r0, q + bk + bq, wh, r.holds(wh));
    assert(k + (q + bk + bq) =~= k + q + bk + bq);
    assert(rights_from(k + q + bk + bq, r0) == Some(r4));
    if (k + q + bk + bq).len() > 0 {
        assert(!(t =~= seq!['-'])) by {
            assert(t[0] != '-');
        }
    }
}

/// Reading the letter of a castling, if it is there, adds the castling.
proof fn lemma_rights_from(
    head: Seq<char>,
    acc: Rights,
    rest: Seq<char>,
    sc: SideColor,
    there: bool,
)
    requires
        there ==> head.len() == 1 && castling_of(head[0]) == Some(sc),
        !there ==> head.len() == 0,
    ensures
        rights_from(head + rest, acc) == rights_from(
            rest,
            if there {
                acc.plus(Rights::only(sc))
            } else {
                acc
            },
        ),
{
    if there {
        assert((head + rest)[0] == head[0]);
        assert((head + rest).drop_first() =~= rest);
    } else {
        assert(head + rest =~= rest);
    }
}

/// Reading a string goes one character at a time.
pub proof fn lemma_place_step(c: Cursor, ch: char, rest: Seq<char>)
    ensures
        place_from(c, seq![ch] + rest) == match place_char(c, ch) {
            Err(e) => Err::<Seq<ColoredPiece>, MailboxParseErr>(e),
            Ok(next) => place_from(next, rest),
        },
{
    let s = seq![ch] + rest;
    assert(s[0] == ch);
    assert(s.drop_first() =~= rest);
}

/// The reader at `c` has read what the writer before file `f` of rank `r`
/// has written: the squares before the pending run of `run` empty squares
/// are those of `sq`, and nothing stands on the others yet.
pub open spec fn in_step(c: Cursor, sq: Seq<ColoredPiece>, r: int, f: int, run: int) -> bool {
    &&& sq.len() == 64
    &&& c.squares.len() == 64
    &&& 0 <= r <= 7
    &&& 0 <= run <= f <= 8
    &&& c.rank == r
    &&& c.file == f - run
    &&& forall|i: int| 0 <= i < r * 8 + f - run ==> c.squares[i] == sq[i]
    &&& forall|i: int| r * 8 + f - run <= i < 64 ==> c.squares[i] == ColoredPiece::Empty
    &&& forall|i: int| r * 8 + f - run <= i < r * 8 + f ==> sq[i] == ColoredPiece::Empty
}

/// The digit of a pending run carries the reader over the run.
proof fn lemma_read_run(c: Cursor, run: int, rest: Seq<char>)
    requires
        0 <= run <= 8,
        0 <= c.file,
        c.file + run <= 8,
    ensures
        place_from(c, run_text(run) + rest) == place_from(
            (Cursor { squares: c.squares, file: c.file + run, rank: c.rank }),
            rest,
        ),
{
    if run > 0 {
        lemma_place_step(c, skip_digit(run), rest);
        assert(run_text(run) + rest =~= seq![skip_digit(run)] + rest);
        assert(skip_of(skip_digit(run)) == Some(run));
    } else {
        assert(run_text(run) + rest =~= rest);
    }
}

/// The text of the ranks from `r` on is what is left to write at the
/// start of rank `r`.
proof fn lemma_ranks_tail(sq: Seq<ColoredPiece>, r: int)
    ensures
        ranks_text(sq, r) == text_tail(sq, r, 0, 0),
{
}

/// Reading what the writer still has to write gives the board that is
/// written.
pub proof fn lemma_read_tail(c: Cursor, sq: Seq<ColoredPiece>, r: int, f: int, run: int)
    requires
        in_step(c, sq, r, f, run),
    ensures
        place_from(c, text_tail(sq, r, f, run)) == Ok::<Seq<ColoredPiece>, MailboxParseErr>(sq),
    decreases 7 - r, 8 - f,
{
    let tail = text_tail(sq, r, f, run);
    let after = Cursor { squares: c.squares, file: f, rank: r };
    if f >= 8 {
        if r >= 7 {
            assert(tail =~= run_text(run) + Seq::<char>::empty());
            lemma_read_run(c, run, Seq::<char>::empty());
            assert(after.squares =~= sq);
        } else {
            let rest = seq!['/'] + ranks_text(sq, r + 1);
            assert(tail =~= run_text(run) + rest);
            lemma_read_run(c, run, rest);
            lemma_place_step(after, '/', ranks_text(sq, r + 1));
            let next = Cursor { squares: c.squares, file: 0, rank: r + 1 };
            lemma_ranks_tail(sq, r + 1);
            assert(in_step(next, sq, r + 1, 0, 0));
            lemma_read_tail(next, sq, r + 1, 0, 0);
        }
    } else if sq[r * 8 + f] == ColoredPiece::Empty {
        assert(rank_text(sq, r, f, run) == rank_text(sq, r, f + 1, run + 1));
        assert(tail == text_tail(sq, r, f + 1, run + 1));
        assert(in_step(c, sq, r, f + 1, run + 1));
        lemma_read_tail(c, sq, r, f + 1, run + 1);
    } else {
        let p = sq[r * 8 + f];
        let rest = text_tail(sq, r, f + 1, 0);
        assert(rank_text(sq, r, f, run) == run_text(run) + seq![p.letter()] + rank_text(
            sq,
            r,
            f + 1,
            0,
        ));
        assert(tail =~= run_text(run) + (seq![p.letter()] + rest));
        lemma_read_run(c, run, seq![p.letter()] + rest);
        lemma_place_step(after, p.letter(), rest);
        assert(ColoredPiece::of_letter(p.letter()) == Some(p));
        let next = Cursor { squares: c.squares.update(r * 8 + f, p), file: f + 1, rank: r };
        assert(place_char(after, p.letter()) == Ok::<Cursor, MailboxParseErr>(next));
        assert(in_step(next, sq, r, f + 1, 0));
        lemma_read_tail(next, sq, r, f + 1, 0);
    }
}

/// Reading the placement string of a board gives the board back.
pub proof fn lemma_placement_round_trip(sq: Seq<ColoredPiece>)
    requires
        sq.len() == 64,
    ensures
        placement(placement_text(sq)) == Ok::<Seq<ColoredPiece>, MailboxParseErr>(sq),
{
    let c = Cursor { squares: empty_squares(), file: 0, rank: 0 };
    lemma_ranks_tail(sq, 0);
    assert(in_step(c, sq, 0, 0, 0));
    lemma_read_tail(c, sq, 0, 0, 0);
}

/// What is joined from strings without separators has none.
pub proof fn lemma_plain_join(a: Seq<char>, b: Seq<char>)
    ensures
        all_plain(a + b) <==> all_plain(a) && all_plain(b),
{
    if all_plain(a + b) {
        assert forall|i: int| 0 <= i < a.len() implies is_plain(#[trigger] a[i]) by {
            assert((a + b)[i] == a[i]);
        }
        assert forall|i: int| 0 <= i < b.len() implies is_plain(#[trigger] b[i]) by {
            assert((a + b)[a.len() + i] == b[i]);
        }
    }
}

/// What is left to write of a placement string has no separator in it.
proof fn lemma_tail_plain(sq: Seq<ColoredPiece>, r: int, f: int, run: int)
    requires
        0 <= r <= 7,
        0 <= run <= f <= 8,
    ensures
        all_plain(text_tail(sq, r, f, run)),
        all_plain(rank_text(sq, r, f, run)),
    decreases 7 - r, 8 - f,
{
    let line = rank_text(sq, r, f, run);
    if f >= 8 {
        assert(all_plain(run_text(run)));
    } else if sq[r * 8 + f] == ColoredPiece::Empty {
        lemma_tail_plain(sq, r, f + 1, run + 1);
    } else {
        lemma_tail_plain(sq, r, f + 1, 0);
        let p = sq[r * 8 + f];
        assert(all_plain(run_text(run)));
        assert(all_plain(seq![p.letter()]));
        lemma_plain_join(run_text(run), seq![p.letter()]);
        lemma_plain_join(run_text(run) + seq![p.letter()], rank_text(sq, r, f + 1, 0));
    }
    assert(all_plain(line));
    if r < 7 {
        lemma_tail_plain(sq, r + 1, 0, 0);
        lemma_ranks_tail(sq, r + 1);
        assert(all_plain(seq!['/']));
        lemma_plain_join(line, seq!['/']);
        lemma_plain_join(line + seq!['/'], ranks_text(sq, r + 1));
    }
}

/// A placement string has no separator in it, and is not empty.
pub proof fn lemma_placement_plain(sq: Seq<ColoredPiece>)
    ensures
        all_plain(placement_text(sq)),
        placement_text(sq).len() >= 1,
{
    lemma_tail_plain(sq, 0, 0, 0);
    lemma_ranks_tail(sq, 0);
    let t = rank_text(sq, 0, 0, 0) + seq!['/'] + ranks_text(sq, 1);
    assert(placement_text(sq) == t);
    assert(t.len() >= 1);
}

/// Inside a field the scan goes on without giving anything.
proof fn lemma_scan_inside(s: Seq<char>, i: int, j: int, start: int)
    requires
        0 <= start,
        0 <= i <= j <= s.len(),
        forall|k: int| i <= k < j ==> !is_space(#[trigger] s[k]),
    ensures
        fields_scan(s, i, start) == fields_scan(s, j, start),
    decreases j - i,
{
    if i < j {
        assert(!is_space(s[i]));
        lemma_scan_inside(s, i + 1, j, start);
    }
}

/// A run of characters that are no separators, ended by a separator or by
/// the end of the string, is the next field.
proof fn lemma_scan_word(s: Seq<char>, i: int, j: int)
    requires
        0 <= i < j <= s.len(),
        forall|k: int| i <= k < j ==> !is_space(#[trigger] s[k]),
        j == s.len() || is_space(s[j]),
    ensures
        fields_scan(s, i, -1) == seq![s.subrange(i, j)] + if j < s.len() {
            fields_scan(s, j + 1, -1)
        } else {
            Seq::<Seq<char>>::empty()
        },
{
    assert(!is_space(s[i]));
    assert(fields_scan(s, i, -1) == fields_scan(s, i + 1, i));
    lemma_scan_inside(s, i + 1, j, i);
    if j >= s.len() {
        assert(fields_scan(s, j, i) =~= seq![s.subrange(i, j)]);
    }
}

/// The fields of the end of a string do not depend on what stands before
/// it.
proof fn lemma_scan_shift(a: Seq<char>, b: Seq<char>, i: int, start: int)
    requires
        0 <= i <= b.len(),
        -1 <= start <= i,
    ensures
        fields_scan(
            a + b,
            a.len() + i,
            if start >= 0 {
                a.len() + start
            } else {
                -1
            },
        ) == fields_scan(b, i, start),
    decreases b.len() - i,
{
    let s = a + b;
    let n = a.len() as int;
    if i < b.len() {
        assert(s[n + i] == b[i]);
        if is_space(b[i]) {
            lemma_scan_shift(a, b, i + 1, -1);
            if start >= 0 {
                assert(s.subrange(n + start, n + i) =~= b.subrange(start, i));
            }
        } else if start >= 0 {
            lemma_scan_shift(a, b, i + 1, start);
        } else {
            lemma_scan_shift(a, b, i + 1, i);
        }
    } else if start >= 0 {
        assert(s.subrange(n + start, s.len() as int) =~= b.subrange(start, b.len() as int));
    }
}

/// A string without separators is its own single field, and before a
/// blank it is the first field of what it is joined to.
pub proof fn lemma_fields_join(w: Seq<char>, rest: Seq<char>)
    requires
        w.len() >= 1,
        all_plain(w),
    ensures
        fields(w) == seq![w],
        fields(w + seq![' '] + rest) == seq![w] + fields(rest),
{
    lemma_scan_word(w, 0, w.len() as int);
    assert(w.subrange(0, w.len() as int) =~= w);
    assert(seq![w] + Seq::<Seq<char>>::empty() =~= seq![w]);
    let head = w + seq![' '];
    let s = head + rest;
    assert forall|k: int| 0 <= k < w.len() implies !is_space(#[trigger] s[k]) by {
        assert(s[k] == w[k]);
        assert(is_plain(w[k]));
    }
    assert(s[w.len() as int] == ' ');
    lemma_scan_word(s, 0, w.len() as int);
    assert(s.subrange(0, w.len() as int) =~= w);
    lemma_scan_shift(head, rest, 0, -1);
}

/// The name of a square has no separator in it.
proof fn lemma_square_text_plain(sq: crate::chess::square::Square)
    ensures
        sq.text().len() >= 1,
        all_plain(sq.text()),
{
    let f = sq.file_part().letter();
    let r = sq.rank_part().digit();
    assert(is_plain(f));
    assert(is_plain(r));
}

/// The text of a colour has no separator in it.
proof fn lemma_color_text_plain(c: Color)
    ensures
        c.text().len() >= 1,
        all_plain(c.text()),
{
}

/// The fields of the string of a description are the texts of its six
/// parts.
pub proof fn lemma_describe_fields(d: Described)
    ensures
        fields(describe_text(d)) == seq![
            placement_text(d.squares),
            d.side.text(),
            rights_text(d.rights),
            d.ep.text(),
            decimal(d.half as int),
            decimal(d.full as int),
        ],
{
    let p = placement_text(d.squares);
    let c = d.side.text();
    let r = rights_text(d.rights);
    let e = d.ep.text();
    let h = decimal(d.half as int);
    let f = decimal(d.full as int);
    let b = seq![' '];
    lemma_placement_plain(d.squares);
    lemma_rights_text_plain(d.rights);
    lemma_decimal_plain(d.half as int);
    lemma_decimal_plain(d.full as int);
    lemma_color_text_plain(d.side);
    lemma_square_text_plain(d.ep);
    let t5 = h + b + f;
    let t4 = e + b + t5;
    let t3 = r + b + t4;
    let t2 = c + b + t3;
    let t1 = p + b + t2;
    assert(describe_text(d) =~= t1);
    lemma_fields_join(f, Seq::<char>::empty());
    lemma_fields_join(h, f);
    lemma_fields_join(e, t5);
    lemma_fields_join(r, t4);
    lemma_fields_join(c, t3);
    lemma_fields_join(p, t2);
    assert(fields(t1) =~= seq![p, c, r, e, h, f]);
}

/// Reading the string of a description gives the description back.
pub proof fn lemma_describe_round_trip(d: Described)
    requires
        d.squares.len() == 64,
        d.side.is_side(),
        d.rights.wf(),
    ensures
        describe(describe_text(d)) == Ok::<Described, FENParseError>(d),
{
    lemma_describe_fields(d);
    lemma_placement_round_trip(d.squares);
    crate::chess::color::lemma_color_text_roundtrip(d.side);
    lemma_rights_round_trip(d.rights);
    crate::chess::square::lemma_square_text_roundtrip(d.ep);
    lemma_number_round_trip(d.half as int, 255);
    lemma_number_round_trip(d.full as int, 65535);
}

} // verus!
