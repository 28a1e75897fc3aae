use vstd::prelude::*;
use crate::text::{decimal, signed_decimal, push_u64, push_i32};

verus! {

/// One sample: the wall-clock second, the pointer position and the names of
/// the keys held down, in the order the device reported them.
pub struct ActivityRecord {
    pub timestamp: u64,
    pub mouse_x: i32,
    pub mouse_y: i32,
    pub keys_pressed: Vec<String>,
}

/// The mathematical value of a record.
pub ghost struct RecordView {
    pub timestamp: u64,
    pub mouse_x: i32,
    pub mouse_y: i32,
    pub keys: Seq<Seq<char>>,
}

impl View for ActivityRecord {
    type V = RecordView;

    open spec fn view(&self) -> RecordView {
        RecordView {
            timestamp: self.timestamp,
            mouse_x: self.mouse_x,
            mouse_y: self.mouse_y,
            keys: self.keys_pressed@.map_values(|k: String| k@),
        }
    }
}

pub open spec fn records_view(v: Seq<ActivityRecord>) -> Seq<RecordView> {
    v.map_values(|r: ActivityRecord| r@)
}

/// A key name that the keys field can carry: not empty, no `+` (the
/// separator) and no line break.
pub open spec fn valid_key_name(k: Seq<char>) -> bool {
    &&& k.len() > 0
    &&& !k.contains('+')
    &&& !k.contains('\n')
}

pub open spec fn valid_record(r: RecordView) -> bool {
    forall|i: int| 0 <= i < r.keys.len() ==> valid_key_name(#[trigger] r.keys[i])
}

pub open spec fn valid_records(rs: Seq<RecordView>) -> bool {
    forall|i: int| 0 <= i < rs.len() ==> valid_record(#[trigger] rs[i])
}

/// The key names joined by `+`.
pub open spec fn join_keys(keys: Seq<Seq<char>>) -> Seq<char>
    decreases keys.len(),
{
    if keys.len() == 0 {
        Seq::empty()
    } else if keys.len() == 1 {
        keys[0]
    } else {
        join_keys(keys.drop_last()) + seq!['+'] + keys.last()
    }
}

/// The CSV line of a record, without its line break.
pub open spec fn record_line(r: RecordView) -> Seq<char> {
    decimal(r.timestamp as nat) + seq![','] + signed_decimal(r.mouse_x as int) + seq![',']
        + signed_decimal(r.mouse_y as int) + seq![',', '"'] + join_keys(r.keys) + seq!['"']
}

pub open spec fn csv_header() -> Seq<char> {
    "timestamp,mouse_x,mouse_y,keys_pressed"@
}

/// The data rows, each ended by a line break.
pub open spec fn rows_text(rs: Seq<RecordView>) -> Seq<char>
    decreases rs.len(),
{
    if rs.len() == 0 {
        Seq::empty()
    } else {
        record_line(rs[0]) + seq!['\n'] + rows_text(rs.drop_first())
    }
}

/// The whole file: the header line, then one line per record.
pub open spec fn csv_text(rs: Seq<RecordView>) -> Seq<char> {
    csv_header() + seq!['\n'] + rows_text(rs)
}

proof fn lemma_rows_text_push(rs: Seq<RecordView>, r: RecordView)
    ensures
        rows_text(rs.push(r)) == rows_text(rs) + record_line(r) + seq!['\n'],
    decreases rs.len(),
{
    if rs.len() == 0 {
        assert(rs.push(r).drop_first() =~= Seq::<RecordView>::empty());
        assert(rows_text(Seq::<RecordView>::empty()) == Seq::<char>::empty());
        assert(rows_text(rs.push(r)) =~= rows_text(rs) + record_line(r) + seq!['\n']);
    } else {
        lemma_rows_text_push(rs.drop_first(), r);
        assert(rs.push(r).drop_first() =~= rs.drop_first().push(r));
        assert(rows_text(rs.push(r)) =~= rows_text(rs) + record_line(r) + seq!['\n']);
    }
}

fn push_keys(out: &mut String, keys: &Vec<String>)
    ensures
        final(out)@ == old(out)@ + join_keys(keys@.map_values(|k: String| k@)),
{
    let ghost names = keys@.map_values(|k: String| k@);
    let mut i: usize = 0;
    assert(names.subrange(0, 0) =~= Seq::<Seq<char>>::empty());
    while i < keys.len()
        invariant
            i <= keys.len(),
            names == keys@.map_values(|k: String| k@),
            out@ == old(out)@ + join_keys(names.subrange(0, i as int)),
        decreases keys.len() - i,
    {
        let ghost before = out@;
        if i > 0 {
            out.append("+");
        }
        out.append(keys[i].as_str());
        let ghost p = names.subrange(0, i + 1);
        assert(p.drop_last() =~= names.subrange(0, i as int));
        assert(p.last() == keys@[i as int]@);
        if i == 0 {
            assert(join_keys(p) == p[0]);
            assert(out@ =~= before + p.last());
        } else {
            proof { reveal_strlit("+"); }
            assert("+"@ =~= seq!['+']);
            assert(join_keys(p) == join_keys(p.drop_last()) + seq!['+'] + p.last());
            assert(out@ =~= before + seq!['+'] + p.last());
        }
        i = i + 1;
        assert(out@ =~= old(out)@ + join_keys(names.subrange(0, i as int)));
    }
    assert(names.subrange(0, i as int) =~= names);
}

/// Appends the CSV line of `r` and its line break.
pub fn push_record_line(out: &mut String, r: &ActivityRecord)
    ensures
        final(out)@ == old(out)@ + record_line(r@) + seq!['\n'],
{
    proof {
        reveal_strlit(",");
        reveal_strlit(",\"");
        reveal_strlit("\"\n");
    }
    push_u64(out, r.timestamp);
    out.append(",");
    push_i32(out, r.mouse_x);
    out.append(",");
    push_i32(out, r.mouse_y);
    out.append(",\"");
    push_keys(out, &r.keys_pressed);
    out.append("\"\n");
    assert(final(out)@ =~= old(out)@ + record_line(r@) + seq!['\n']);
}

/// The CSV file for a recording: a header line, then one line per record in
/// the order of the log.
pub fn render_csv(records: &Vec<ActivityRecord>) -> (r: String)
    ensures
        r@ == csv_text(records_view(records@)),
{
    let mut out = String::new();
    proof {
        reveal_strlit("\n");
    }
    out.append("timestamp,mouse_x,mouse_y,keys_pressed");
    out.append("\n");
    let mut i: usize = 0;
    assert(records_view(records@).subrange(0, 0) =~= Seq::<RecordView>::empty());
    assert(out@ =~= csv_header() + seq!['\n'] + rows_text(records_view(records@).subrange(0, 0)));
    while i < records.len()
        invariant
            i <= records.len(),
            out@ == csv_header() + seq!['\n'] + rows_text(records_view(records@).subrange(0, i as int)),
        decreases records.len() - i,
    {
        push_record_line(&mut out, &records[i]);
        proof {
            let rv = records_view(records@);
            lemma_rows_text_push(rv.subrange(0, i as int), rv[i as int]);
            assert(rv.subrange(0, i as int).push(rv[i as int]) =~= rv.subrange(0, i + 1));
        }
        i = i + 1;
        assert(out@ =~= csv_header() + seq!['\n'] + rows_text(records_view(records@).subrange(0, i as int)));
    }
    assert(records_view(records@).subrange(0, i as int) =~= records_view(records@));
    out
}

} // verus!
