use vstd::prelude::*;
use crate::record::{
    RecordView, csv_header, csv_text, join_keys, record_line, rows_text, valid_key_name,
    valid_record, valid_records,
};
use crate::record::{ActivityRecord, records_view};
use crate::text::{
    parse_i32, parse_u64, all_digits, decimal, is_digit, lemma_decimal, lemma_parse_decimal_i32,
    lemma_parse_decimal_u64, parsed_i32, parsed_u64, signed_decimal,
};

verus! {

/// The position of the first `c` in `s`, or the length of `s` when there is none.
pub open spec fn find_char(s: Seq<char>, c: char) -> nat
    decreases s.len(),
{
    if s.len() == 0 {
        0
    } else if s[0] == c {
        0
    } else {
        1 + find_char(s.drop_first(), c)
    }
}

/// The pieces of `s` between the occurrences of `c`.
pub open spec fn split_on(s: Seq<char>, c: char) -> Seq<Seq<char>>
    decreases s.len(),
{
    let i = find_char(s, c);
    if i >= s.len() {
        seq![s]
    } else {
        seq![s.take(i as int)] + split_on(s.skip(i + 1int), c)
    }
}

/// The key names of a keys field without its quotes: none when it is empty,
/// else the pieces between `+`, each of which must be non-empty.
pub open spec fn parsed_keys(inner: Seq<char>) -> Option<Seq<Seq<char>>> {
    if inner.len() == 0 {
        Some(Seq::empty())
    } else {
        let ks = split_on(inner, '+');
        if forall|j: int| 0 <= j < ks.len() ==> (#[trigger] ks[j]).len() > 0 {
            Some(ks)
        } else {
            None
        }
    }
}

/// The record on one line (without its line break): three fields ended by
/// commas, then the keys field in double quotes up to the end of the line.
pub open spec fn parsed_line(l: Seq<char>) -> Option<RecordView> {
    let i1 = find_char(l, ',');
    let r1 = l.skip(i1 + 1int);
    let i2 = find_char(r1, ',');
    let r2 = r1.skip(i2 + 1int);
    let i3 = find_char(r2, ',');
    let r3 = r2.skip(i3 + 1int);
    if i1 < l.len() && i2 < r1.len() && i3 < r2.len() && r3.len() >= 2 && r3[0] == '"'
        && r3.last() == '"' {
        match (
            parsed_u64(l.take(i1 as int)),
            parsed_i32(r1.take(i2 as int)),
            parsed_i32(r2.take(i3 as int)),
            parsed_keys(r3.subrange(1, r3.len() - 1)),
        ) {
            (Some(t), Some(x), Some(y), Some(k)) => Some(
                RecordView { timestamp: t, mouse_x: x, mouse_y: y, keys: k },
            ),
            _ => None,
        }
    } else {
        None
    }
}

/// The records of the data lines, each of which must end in a line break.
pub open spec fn parsed_rows(s: Seq<char>) -> Option<Seq<RecordView>>
    decreases s.len(),
{
    if s.len() == 0 {
        Some(Seq::empty())
    } else {
        let i = find_char(s, '\n');
        if i >= s.len() {
            None
        } else {
            match (parsed_line(s.take(i as int)), parsed_rows(s.skip(i + 1int))) {
                (Some(r), Some(rs)) => Some(seq![r] + rs),
                _ => None,
            }
        }
    }
}

/// The records of a CSV file: the header line, then the data lines.
pub open spec fn parsed_csv(t: Seq<char>) -> Option<Seq<RecordView>> {
    let h = csv_header();
    if t.len() > h.len() && t.take(h.len() as int) == h && t[h.len() as int] == '\n' {
        parsed_rows(t.skip(h.len() + 1int))
    } else {
        None
    }
}

proof fn lemma_find_absent(a: Seq<char>, c: char)
    requires
        !a.contains(c),
    ensures
        find_char(a, c) == a.len(),
    decreases a.len(),
{
    if a.len() > 0 {
        assert(a[0] != c);
        assert(!a.drop_first().contains(c)) by {
            if a.drop_first().contains(c) {
                let k = choose|k: int| 0 <= k < a.drop_first().len() && a.drop_first()[k] == c;
                assert(a[k + 1] == c);
            }
        }
        lemma_find_absent(a.drop_first(), c);
    }
}

proof fn lemma_find_first(a: Seq<char>, c: char, b: Seq<char>)
    requires
        !a.contains(c),
    ensures
        find_char(a + seq![c] + b, c) == a.len(),
        (a + seq![c] + b).take(a.len() as int) == a,
        (a + seq![c] + b).skip(a.len() + 1int) == b,
    decreases a.len(),
{
    let s = a + seq![c] + b;
    assert(s.take(a.len() as int) =~= a);
    assert(s.skip(a.len() + 1int) =~= b);
    if a.len() > 0 {
        assert(a[0] != c);
        assert(!a.drop_first().contains(c)) by {
            if a.drop_first().contains(c) {
                let k = choose|k: int| 0 <= k < a.drop_first().len() && a.drop_first()[k] == c;
                assert(a[k + 1] == c);
            }
        }
        lemma_find_first(a.drop_first(), c, b);
        assert(s.drop_first() =~= a.drop_first() + seq![c] + b);
    } else {
        assert(s[0] == c);
    }
}

proof fn lemma_digits_free_of(n: nat, c: char)
    requires
        !is_digit(c),
    ensures
        !decimal(n).contains(c),
{
    lemma_decimal(n);
    let s = decimal(n);
    assert(all_digits(s));
    if s.contains(c) {
        let k = choose|k: int| 0 <= k < s.len() && s[k] == c;
        assert(is_digit(s[k]));
    }
}

proof fn lemma_signed_free_of(i: int, c: char)
    requires
        !is_digit(c),
        c != '-',
    ensures
        !signed_decimal(i).contains(c),
{
    let m: nat = if i < 0 { (-i) as nat } else { i as nat };
    lemma_digits_free_of(m, c);
    let s = signed_decimal(i);
    if s.contains(c) {
        let k = choose|k: int| 0 <= k < s.len() && s[k] == c;
        if i < 0 {
            assert(s[k] == (seq!['-'] + decimal(m))[k]);
            assert(k > 0);
            assert(decimal(m)[k - 1] == c);
        }
    }
}

proof fn lemma_join_front(keys: Seq<Seq<char>>)
    requires
        keys.len() >= 2,
    ensures
        join_keys(keys) == keys[0] + seq!['+'] + join_keys(keys.drop_first()),
    decreases keys.len(),
{
    let df = keys.drop_first();
    if keys.len() > 2 {
        lemma_join_front(keys.drop_last());
        assert(keys.drop_last().drop_first() =~= df.drop_last());
        assert(df.last() == keys.last());
        assert(join_keys(df) == join_keys(df.drop_last()) + seq!['+'] + df.last());
        assert(join_keys(keys) == join_keys(keys.drop_last()) + seq!['+'] + keys.last());
        assert(join_keys(keys) =~= keys[0] + seq!['+'] + join_keys(df));
    } else {
        assert(keys.drop_last() =~= seq![keys[0]]);
        assert(df =~= seq![keys[1]]);
        assert(join_keys(seq![keys[0]]) == keys[0]);
        assert(join_keys(seq![keys[1]]) == keys[1]);
        assert(join_keys(keys) == join_keys(keys.drop_last()) + seq!['+'] + keys.last());
    }
}

proof fn lemma_join_free_of(keys: Seq<Seq<char>>, c: char)
    requires
        forall|j: int| 0 <= j < keys.len() ==> !(#[trigger] keys[j]).contains(c),
        c != '+',
    ensures
        !join_keys(keys).contains(c),
    decreases keys.len(),
{
    if keys.len() >= 2 {
        lemma_join_free_of(keys.drop_last(), c);
        let s = join_keys(keys);
        let a = join_keys(keys.drop_last());
        assert(!keys[keys.len() - 1].contains(c));
        if s.contains(c) {
            let k = choose|k: int| 0 <= k < s.len() && s[k] == c;
            if k < a.len() {
                assert(s[k] == a[k]);
            } else if k > a.len() {
                assert(s[k] == keys.last()[k - a.len() - 1]);
            }
        }
    } else if keys.len() == 1 {
        assert(!keys[0].contains(c));
    }
}

proof fn lemma_split_join(keys: Seq<Seq<char>>)
    requires
        keys.len() >= 1,
        forall|j: int| 0 <= j < keys.len() ==> valid_key_name(#[trigger] keys[j]),
    ensures
        split_on(join_keys(keys), '+') == keys,
        join_keys(keys).len() > 0,
    decreases keys.len(),
{
    assert(valid_key_name(keys[0]));
    if keys.len() == 1 {
        lemma_find_absent(keys[0], '+');
        assert(split_on(keys[0], '+') =~= keys);
    } else {
        lemma_join_front(keys);
        let rest = keys.drop_first();
        assert(forall|j: int| 0 <= j < rest.len() ==> valid_key_name(#[trigger] rest[j])) by {
            assert forall|j: int| 0 <= j < rest.len() implies valid_key_name(#[trigger] rest[j]) by {
                assert(rest[j] == keys[j + 1]);
            }
        }
        lemma_split_join(rest);
        lemma_find_first(keys[0], '+', join_keys(rest));
        assert(split_on(join_keys(keys), '+') =~= keys);
    }
}

proof fn lemma_parse_keys_join(keys: Seq<Seq<char>>)
    requires
        forall|j: int| 0 <= j < keys.len() ==> valid_key_name(#[trigger] keys[j]),
    ensures
        parsed_keys(join_keys(keys)) == Some(keys),
{
    if keys.len() == 0 {
        assert(join_keys(keys).len() == 0);
        assert(keys =~= Seq::<Seq<char>>::empty());
    } else {
        lemma_split_join(keys);
        let ks = split_on(join_keys(keys), '+');
        assert(forall|j: int| 0 <= j < ks.len() ==> (#[trigger] ks[j]).len() > 0) by {
            assert forall|j: int| 0 <= j < ks.len() implies (#[trigger] ks[j]).len() > 0 by {
                assert(valid_key_name(keys[j]));
            }
        }
    }
}

#[verifier::rlimit(40)]
proof fn lemma_parse_line(r: RecordView)
    requires
        valid_record(r),
    ensures
        parsed_line(record_line(r)) == Some(r),
{
    let d = decimal(r.timestamp as nat);
    let x = signed_decimal(r.mouse_x as int);
    let y = signed_decimal(r.mouse_y as int);
    let j = join_keys(r.keys);
    let r3 = seq!['"'] + j + seq!['"'];
    let r2 = y + seq![','] + r3;
    let r1 = x + seq![','] + r2;
    let l = d + seq![','] + r1;
    assert(l =~= record_line(r));
    lemma_digits_free_of(r.timestamp as nat, ',');
    lemma_signed_free_of(r.mouse_x as int, ',');
    lemma_signed_free_of(r.mouse_y as int, ',');
    lemma_find_first(d, ',', r1);
    lemma_find_first(x, ',', r2);
    lemma_find_first(y, ',', r3);
    assert(r3.subrange(1, r3.len() - 1) =~= j);
    lemma_parse_decimal_u64(r.timestamp);
    lemma_parse_decimal_i32(r.mouse_x);
    lemma_parse_decimal_i32(r.mouse_y);
    assert forall|k: int| 0 <= k < r.keys.len() implies valid_key_name(#[trigger] r.keys[k]) by {
        assert(valid_record(r));
    }
    lemma_parse_keys_join(r.keys);
}

proof fn lemma_line_unbroken(r: RecordView)
    requires
        valid_record(r),
    ensures
        !record_line(r).contains('\n'),
{
    let d = decimal(r.timestamp as nat);
    let x = signed_decimal(r.mouse_x as int);
    let y = signed_decimal(r.mouse_y as int);
    let j = join_keys(r.keys);
    let l = record_line(r);
    lemma_digits_free_of(r.timestamp as nat, '\n');
    lemma_signed_free_of(r.mouse_x as int, '\n');
    lemma_signed_free_of(r.mouse_y as int, '\n');
    assert forall|k: int| 0 <= k < r.keys.len() implies !(#[trigger] r.keys[k]).contains('\n') by {
        assert(valid_key_name(r.keys[k]));
    }
    lemma_join_free_of(r.keys, '\n');
    if l.contains('\n') {
        let k = choose|k: int| 0 <= k < l.len() && l[k] == '\n';
        if k < d.len() {
            assert(d[k] == '\n');
        } else if d.len() < k < d.len() + 1 + x.len() {
            assert(x[k - d.len() - 1] == '\n');
        } else if d.len() + 1 + x.len() < k < d.len() + 2 + x.len() + y.len() {
            assert(y[k - d.len() - 2 - x.len()] == '\n');
        } else if d.len() + 4 + x.len() + y.len() <= k < d.len() + 4 + x.len() + y.len() + j.len() {
            assert(j[k - d.len() - 4 - x.len() - y.len()] == '\n');
        }
    }
}

#[verifier::rlimit(40)]
proof fn lemma_parse_rows(rs: Seq<RecordView>)
    requires
        valid_records(rs),
    ensures
        parsed_rows(rows_text(rs)) == Some(rs),
    decreases rs.len(),
{
    if rs.len() == 0 {
        assert(rows_text(rs) =~= Seq::<char>::empty());
        assert(rs =~= Seq::<RecordView>::empty());
    } else {
        assert(valid_record(rs[0]));
        lemma_parse_line(rs[0]);
        lemma_line_unbroken(rs[0]);
        let rest = rs.drop_first();
        assert(valid_records(rest)) by {
            assert forall|i: int| 0 <= i < rest.len() implies valid_record(#[trigger] rest[i]) by {
                assert(rest[i] == rs[i + 1]);
            }
        }
        lemma_parse_rows(rest);
        lemma_find_first(record_line(rs[0]), '\n', rows_text(rest));
        assert(seq![rs[0]] + rest =~= rs);
    }
}

/// Reading back a file that `render_csv` wrote gives the records it was
/// written from, in the same order, provided each key name is non-empty and
/// holds neither `+` nor a line break.
pub proof fn lemma_csv_round_trip(rs: Seq<RecordView>)
    requires
        valid_records(rs),
    ensures
        parsed_csv(csv_text(rs)) == Some(rs),
{
    let h = csv_header();
    let t = csv_text(rs);
    assert(t.take(h.len() as int) =~= h);
    assert(t.skip(h.len() + 1int) =~= rows_text(rs));
    assert(t[h.len() as int] == '\n');
    lemma_parse_rows(rs);
}

/// What a `Vec` of key names holds.
pub open spec fn names_view(v: Seq<String>) -> Seq<Seq<char>> {
    v.map_values(|k: String| k@)
}

/// The characters of `text`, in order.
fn chars_of(text: &str) -> (r: Vec<char>)
    ensures
        r@ == text@,
{
    let n = text.unicode_len();
    let mut v: Vec<char> = Vec::new();
    let mut i: usize = 0;
    while i < n
        invariant
            n == text@.len(),
            i <= n,
            v@ == text@.subrange(0, i as int),
        decreases n - i,
    {
        v.push(text.get_char(i));
        i = i + 1;
        assert(v@ =~= text@.subrange(0, i as int));
    }
    assert(v@ =~= text@);
    v
}

/// The position of the first `c` in `s[from..to]`, or `to` when there is none.
fn find_from(s: &Vec<char>, c: char, from: usize, to: usize) -> (r: usize)
    requires
        from <= to <= s.len(),
    ensures
        r == from + find_char(s@.subrange(from as int, to as int), c),
        r <= to,
{
    let mut i: usize = from;
    while i < to && s[i] != c
        invariant
            from <= i <= to <= s.len(),
            find_char(s@.subrange(from as int, to as int), c) == (i - from) + find_char(
                s@.subrange(i as int, to as int),
                c,
            ),
        decreases to - i,
    {
        assert(s@.subrange(i as int, to as int).drop_first() =~= s@.subrange(i + 1, to as int));
        i = i + 1;
    }
    if i < to {
        assert(s@.subrange(i as int, to as int)[0] == c);
    }
    i
}

/// Reads the key names of a keys field, without its quotes, from `s[from..to]`.
fn parse_keys(text: &str, s: &Vec<char>, from: usize, to: usize) -> (r: Option<Vec<String>>)
    requires
        s@ == text@,
        from <= to <= s.len(),
    ensures
        match r {
            Some(v) => parsed_keys(s@.subrange(from as int, to as int)) == Some(names_view(v@)),
            None => parsed_keys(s@.subrange(from as int, to as int)) is None,
        },
{
    let ghost full = s@.subrange(from as int, to as int);
    let mut keys: Vec<String> = Vec::new();
    if from == to {
        assert(names_view(keys@) =~= Seq::<Seq<char>>::empty());
        return Some(keys);
    }
    let mut pos: usize = from;
    assert(names_view(keys@) + split_on(s@.subrange(pos as int, to as int), '+') =~= split_on(full, '+'));
    loop
        invariant
            s@ == text@,
            from < to <= s.len(),
            from <= pos <= to,
            full == s@.subrange(from as int, to as int),
            split_on(full, '+') == names_view(keys@) + split_on(s@.subrange(pos as int, to as int), '+'),
            forall|j: int| 0 <= j < keys@.len() ==> (#[trigger] names_view(keys@)[j]).len() > 0,
        decreases to - pos,
    {
        let q = find_from(s, '+', pos, to);
        let ghost rest = s@.subrange(pos as int, to as int);
        let ghost ks = split_on(full, '+');
        assert(split_on(rest, '+')[0] == s@.subrange(pos as int, q as int)) by {
            if q < to {
                assert(rest.take(q - pos) =~= s@.subrange(pos as int, q as int));
            } else {
                assert(rest =~= s@.subrange(pos as int, q as int));
            }
        }
        assert(ks[keys@.len() as int] == s@.subrange(pos as int, q as int));
        if q == pos {
            assert(ks[keys@.len() as int].len() == 0);
            return None;
        }
        let piece = String::from_str(text.substring_char(pos, q));
        let ghost before = keys@;
        keys.push(piece);
        assert(names_view(keys@) =~= names_view(before).push(s@.subrange(pos as int, q as int)));
        if q >= to {
            assert(split_on(rest, '+') =~= seq![rest]);
            assert(rest =~= s@.subrange(pos as int, q as int));
            assert(ks =~= names_view(keys@));
            return Some(keys);
        }
        assert(rest.skip((q - pos) + 1int) =~= s@.subrange(q + 1, to as int));
        assert(split_on(rest, '+') =~= seq![s@.subrange(pos as int, q as int)] + split_on(
            s@.subrange(q + 1, to as int),
            '+',
        ));
        pos = q + 1;
        assert(ks =~= names_view(keys@) + split_on(s@.subrange(pos as int, to as int), '+'));
    }
}

/// Reads the record on the line `s[from..to]`, its line break excluded.
#[verifier::rlimit(40)]
fn parse_line(text: &str, s: &Vec<char>, from: usize, to: usize) -> (r: Option<ActivityRecord>)
    requires
        s@ == text@,
        from <= to <= s.len(),
    ensures
        match r {
            Some(rec) => parsed_line(s@.subrange(from as int, to as int)) == Some(rec@),
            None => parsed_line(s@.subrange(from as int, to as int)) is None,
        },
{
    let ghost l = s@.subrange(from as int, to as int);
    let comma1 = find_from(s, ',', from, to);
    if comma1 >= to {
        return None;
    }
    let ghost r1 = l.skip(comma1 - from + 1int);
    assert(r1 =~= s@.subrange(comma1 + 1, to as int));
    assert(l.take(comma1 - from) =~= s@.subrange(from as int, comma1 as int));
    let comma2 = find_from(s, ',', comma1 + 1, to);
    if comma2 >= to {
        return None;
    }
    let ghost r2 = r1.skip(comma2 - comma1 - 1 + 1int);
    assert(r2 =~= s@.subrange(comma2 + 1, to as int));
    assert(r1.take(comma2 - comma1 - 1) =~= s@.subrange(comma1 + 1, comma2 as int));
    let comma3 = find_from(s, ',', comma2 + 1, to);
    if comma3 >= to {
        return None;
    }
    let ghost r3 = r2.skip(comma3 - comma2 - 1 + 1int);
    assert(r3 =~= s@.subrange(comma3 + 1, to as int));
    assert(r2.take(comma3 - comma2 - 1) =~= s@.subrange(comma2 + 1, comma3 as int));
    if to - (comma3 + 1) < 2 || s[comma3 + 1] != '"' || s[to - 1] != '"' {
        return None;
    }
    assert(r3[0] == s@[comma3 + 1]);
    assert(r3.last() == s@[to - 1]);
    assert(r3.subrange(1, r3.len() - 1) =~= s@.subrange(comma3 + 2, to - 1));
    let timestamp = match parse_u64(s, from, comma1) {
        Some(t) => t,
        None => {
            return None;
        },
    };
    let mouse_x = match parse_i32(s, comma1 + 1, comma2) {
        Some(x) => x,
        None => {
            return None;
        },
    };
    let mouse_y = match parse_i32(s, comma2 + 1, comma3) {
        Some(y) => y,
        None => {
            return None;
        },
    };
    let keys_pressed = match parse_keys(text, s, comma3 + 2, to - 1) {
        Some(k) => k,
        None => {
            return None;
        },
    };
    Some(ActivityRecord { timestamp, mouse_x, mouse_y, keys_pressed })
}

pub open spec fn then_rows(done: Seq<RecordView>, rest: Option<Seq<RecordView>>) -> Option<
    Seq<RecordView>,
> {
    match rest {
        Some(rs) => Some(done + rs),
        None => None,
    }
}

proof fn lemma_rows_step(rest: Seq<char>, i: int, done: Seq<RecordView>, line: Option<RecordView>)
    requires
        0 <= i < rest.len(),
        find_char(rest, '\n') == i,
        parsed_line(rest.take(i)) == line,
    ensures
        line is None ==> parsed_rows(rest) is None,
        line matches Some(r) ==> then_rows(done, parsed_rows(rest)) == then_rows(
            done.push(r),
            parsed_rows(rest.skip(i + 1)),
        ),
{
    if let Some(r) = line {
        match parsed_rows(rest.skip(i + 1)) {
            Some(rs) => {
                assert(done + (seq![r] + rs) =~= done.push(r) + rs);
            },
            None => {},
        }
    }
}

/// Reads a CSV file as `render_csv` writes it: the header line, then one
/// line per record, each ended by a line break. Gives `None` when the text
/// is not such a file.
#[verifier::rlimit(40)]
pub fn parse_csv(text: &str) -> (r: Option<Vec<ActivityRecord>>)
    ensures
        match r {
            Some(v) => parsed_csv(text@) == Some(records_view(v@)),
            None => parsed_csv(text@) is None,
        },
{
    let s = chars_of(text);
    let h = chars_of("timestamp,mouse_x,mouse_y,keys_pressed");
    let n = s.len();
    let hl = h.len();
    assert(h@ == csv_header());
    if n <= hl {
        return None;
    }
    let mut k: usize = 0;
    while k < hl
        invariant
            k <= hl < n == s.len(),
            hl == h.len(),
            s@ == text@,
            h@ == csv_header(),
            forall|j: int| 0 <= j < k ==> s@[j] == h@[j],
        decreases hl - k,
    {
        if s[k] != h[k] {
            assert(s@.take(hl as int)[k as int] != h@[k as int]);
            return None;
        }
        k = k + 1;
    }
    assert(s@.take(hl as int) =~= h@);
    if s[hl] != '\n' {
        return None;
    }
    let ghost start = hl + 1;
    assert(s@.skip(hl + 1int) =~= s@.subrange(start, n as int));
    let mut records: Vec<ActivityRecord> = Vec::new();
    let mut pos: usize = hl + 1;
    assert(records_view(records@) =~= Seq::<RecordView>::empty());
    assert(then_rows(Seq::<RecordView>::empty(), parsed_rows(s@.subrange(pos as int, n as int)))
        =~= parsed_rows(s@.subrange(pos as int, n as int)));
    while pos < n
        invariant
            s@ == text@,
            n == s.len(),
            start <= pos <= n,
            parsed_csv(text@) == parsed_rows(s@.subrange(start, n as int)),
            parsed_rows(s@.subrange(start, n as int)) == then_rows(
                records_view(records@),
                parsed_rows(s@.subrange(pos as int, n as int)),
            ),
        decreases n - pos,
    {
        let q = find_from(&s, '\n', pos, n);
        let ghost rest = s@.subrange(pos as int, n as int);
        if q >= n {
            return None;
        }
        assert(rest.take(q - pos) =~= s@.subrange(pos as int, q as int));
        assert(rest.skip(q - pos + 1int) =~= s@.subrange(q + 1, n as int));
        let line = parse_line(text, &s, pos, q);
        let ghost done = records_view(records@);
        proof {
            let gl = if line is Some { Some(line->0@) } else { None::<RecordView> };
            lemma_rows_step(rest, q - pos, done, gl);
        }
        let rec = match line {
            Some(rec) => rec,
            None => {
                return None;
            },
        };
        records.push(rec);
        assert(records_view(records@) =~= done.push(rec@));
        pos = q + 1;
    }
    assert(s@.subrange(pos as int, n as int) =~= Seq::<char>::empty());
    assert(records_view(records@) + Seq::<RecordView>::empty() =~= records_view(records@));
    Some(records)
}

} // verus!
