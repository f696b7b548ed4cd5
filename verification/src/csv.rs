use vstd::prelude::*;
use vstd::string::StringExecFns;

use crate::locale::{text_spec, Texts};

verus! {

/// The fields joined by commas.
pub open spec fn join_spec(fields: Seq<Seq<char>>) -> Seq<char>
    decreases fields.len(),
{
    if fields.len() == 0 {
        seq![]
    } else if fields.len() == 1 {
        fields[0]
    } else {
        join_spec(fields.drop_last()) + ","@ + fields.last()
    }
}

/// The lines, each a row of fields joined by commas and ended by a line feed.
pub open spec fn lines_spec(rows: Seq<Seq<Seq<char>>>) -> Seq<char>
    decreases rows.len(),
{
    if rows.len() == 0 {
        seq![]
    } else {
        lines_spec(rows.drop_last()) + join_spec(rows.last()) + "\n"@
    }
}

/// The keys of the column titles of the muon tables, in column order.
pub open spec fn muon_column_keys() -> Seq<Seq<char>> {
    seq![
        "muon_list_zenith"@,
        "muon_list_abs_angle_primary"@,
        "muon_list_azimuth"@,
        "muon_list_azimuth_offset"@,
        "muon_list_total_energy"@,
        "muon_list_size"@,
        "muon_list_let_avg"@,
        "muon_list_timestamp"@,
        "muon_list_frame_index"@,
        "muon_list_file"@,
    ]
}

pub open spec fn rows_view(rows: Seq<Vec<String>>) -> Seq<Seq<Seq<char>>> {
    rows.map_values(|r: Vec<String>| r.deep_view())
}

/// Appends the fields, joined by commas, and a line feed.
fn push_line(out: &mut String, fields: &Vec<String>)
    ensures
        final(out)@ == old(out)@ + join_spec(fields.deep_view()) + "\n"@,
{
    let ghost start = out@;
    let ghost fs = fields.deep_view();
    let mut i: usize = 0;
    while i < fields.len()
        invariant
            i <= fields.len(),
            fs == fields.deep_view(),
            out@ == start + join_spec(fs.take(i as int)),
        decreases fields.len() - i,
    {
        assert(fs.take(i + 1).drop_last() =~= fs.take(i as int));
        assert(fs.take(i + 1).last() == fields@[i as int]@);
        if i > 0 {
            out.append(",");
        } else {
            assert(fs.take(i as int) =~= seq![]);
            assert(join_spec(fs.take(i as int)) =~= seq![]);
        }
        out.append(fields[i].as_str());
        i = i + 1;
        proof {
            if i == 1 {
                assert(start + join_spec(fs.take(0)) + fields@[0]@ =~= start + join_spec(fs.take(1)));
            } else {
                assert(out@ =~= start + join_spec(fs.take(i as int)));
            }
        }
    }
    assert(fs.take(fields.len() as int) =~= fs);
    out.append("\n");
}

/// The table of muons as comma-separated values: the column titles in the interface
/// language, then one line per muon; `rows` holds each muon's fields, already written out.
pub fn build_csv(texts: &Texts, rows: &Vec<Vec<String>>) -> (s: String)
    ensures
        s@ == join_spec(muon_column_keys().map_values(|k: Seq<char>| text_spec(texts.values.deep_view(), k))) + "\n"@
            + lines_spec(rows_view(rows@)),
{
    let mut header: Vec<String> = Vec::new();
    header.push(texts.text("muon_list_zenith"));
    header.push(texts.text("muon_list_abs_angle_primary"));
    header.push(texts.text("muon_list_azimuth"));
    header.push(texts.text("muon_list_azimuth_offset"));
    header.push(texts.text("muon_list_total_energy"));
    header.push(texts.text("muon_list_size"));
    header.push(texts.text("muon_list_let_avg"));
    header.push(texts.text("muon_list_timestamp"));
    header.push(texts.text("muon_list_frame_index"));
    header.push(texts.text("muon_list_file"));
    assert(header.deep_view() =~= muon_column_keys().map_values(
        |k: Seq<char>| text_spec(texts.values.deep_view(), k),
    ));
    let mut content = String::new();
    push_line(&mut content, &header);
    let ghost head = content@;
    let ghost rs = rows_view(rows@);
    let mut i: usize = 0;
    while i < rows.len()
        invariant
            i <= rows.len(),
            rs == rows_view(rows@),
            content@ == head + lines_spec(rs.take(i as int)),
        decreases rows.len() - i,
    {
        assert(rs.take(i + 1).drop_last() =~= rs.take(i as int));
        assert(rs.take(i + 1).last() == rows@[i as int].deep_view());
        push_line(&mut content, &rows[i]);
        i = i + 1;
        assert(content@ =~= head + lines_spec(rs.take(i as int)));
    }
    assert(rs.take(rows.len() as int) =~= rs);
    content
}

/// A single field is written as it is; joining two non-empty runs of fields puts one comma
/// between their joins.
pub proof fn law_join_splits(a: Seq<Seq<char>>, b: Seq<Seq<char>>, f: Seq<char>)
    requires
        a.len() > 0,
        b.len() > 0,
    ensures
        join_spec(seq![f]) == f,
        join_spec(a + b) == join_spec(a) + ","@ + join_spec(b),
    decreases b.len(),
{
    if b.len() == 1 {
        assert((a + b).drop_last() =~= a);
        assert(join_spec(b) == b[0]);
    } else {
        law_join_splits(a, b.drop_last(), f);
        assert((a + b).drop_last() =~= a + b.drop_last());
        assert((a + b).last() == b.last());
        assert(join_spec(a) + ","@ + join_spec(b.drop_last()) + ","@ + b.last() =~= join_spec(a) + ","@ + (join_spec(
            b.drop_last(),
        ) + ","@ + b.last()));
    }
}

/// Each row is one line: the lines of two runs of rows are the lines of the first, then
/// those of the second; one row is its fields joined by commas and a line feed.
pub proof fn law_one_line_per_row(a: Seq<Seq<Seq<char>>>, b: Seq<Seq<Seq<char>>>, r: Seq<Seq<char>>)
    ensures
        lines_spec(seq![r]) == join_spec(r) + "\n"@,
        lines_spec(a + b) == lines_spec(a) + lines_spec(b),
    decreases b.len(),
{
    assert(seq![r].drop_last() =~= Seq::<Seq<Seq<char>>>::empty());
    assert(lines_spec(Seq::<Seq<Seq<char>>>::empty()) =~= Seq::<char>::empty());
    if b.len() == 0 {
        assert(a + b =~= a);
        assert(lines_spec(a) + lines_spec(b) =~= lines_spec(a));
    } else {
        law_one_line_per_row(a, b.drop_last(), r);
        assert((a + b).drop_last() =~= a + b.drop_last());
        assert((a + b).last() == b.last());
        assert(lines_spec(a) + lines_spec(b.drop_last()) + join_spec(b.last()) + "\n"@ =~= lines_spec(a) + (lines_spec(
            b.drop_last(),
        ) + join_spec(b.last()) + "\n"@));
    }
}

} // verus!
