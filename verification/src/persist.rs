//! The on-disk format of the persisted PATH list and of the startup
//! script: plain text, one entry or pipeline line per row. Reading
//! splits on line feeds, drops the final empty piece a trailing newline
//! leaves behind, and strips a carriage return at the end of a row;
//! writing puts one entry per row with a trailing newline.

use vstd::prelude::*;

use crate::lines::lemma_split_from_append_sep;
use crate::lines::lemma_split_from_no_sep;
use crate::lines::split_char;
use crate::lines::split_from;
use crate::lines::split_on;

verus! {

/// A row without a trailing carriage return.
pub open spec fn strip_cr(l: Seq<char>) -> Seq<char> {
    if l.len() > 0 && l[l.len() - 1] == '\r' {
        l.drop_last()
    } else {
        l
    }
}

/// The rows of a text file.
pub open spec fn file_lines_spec(s: Seq<char>) -> Seq<Seq<char>> {
    let raw = split_char(s, '\n');
    let kept = if raw.len() > 0 && raw.last().len() == 0 {
        raw.drop_last()
    } else {
        raw
    };
    kept.map_values(|l: Seq<char>| strip_cr(l))
}

/// The text that renders the entries one per row.
pub open spec fn render_lines_spec(entries: Seq<Seq<char>>) -> Seq<char>
    decreases entries.len(),
{
    if entries.len() == 0 {
        Seq::empty()
    } else {
        render_lines_spec(entries.drop_last()) + entries.last() + seq!['\n']
    }
}

/// Split a file's content into its rows.
pub fn parse_path_file(content: &str) -> (r: Vec<String>)
    ensures
        r.deep_view() == file_lines_spec(content@),
{
    let mut rows = split_on(content, '\n');
    let ghost raw = rows.deep_view();
    if rows.len() > 0 && rows[rows.len() - 1].as_str().unicode_len() == 0 {
        rows.pop();
        proof {
            assert(rows.deep_view() =~= raw.drop_last());
        }
    }
    let ghost kept = rows.deep_view();
    let mut out: Vec<String> = Vec::new();
    let mut i: usize = 0;
    while i < rows.len()
        invariant
            kept == rows.deep_view(),
            i <= rows@.len(),
            out.deep_view() =~= kept.map_values(|l: Seq<char>| strip_cr(l)).subrange(0, i as int),
        decreases rows@.len() - i,
    {
        proof {
            assert(kept[i as int] == rows@[i as int]@);
        }
        let row = &rows[i];
        let n = row.as_str().unicode_len();
        let ghost prev = out.deep_view();
        if n > 0 && row.as_str().get_char(n - 1) == '\r' {
            let stripped = row.as_str().substring_char(0, n - 1).to_owned();
            proof {
                assert(row@.subrange(0, n as int - 1) =~= row@.drop_last());
                assert(stripped@ == strip_cr(kept[i as int]));
            }
            out.push(stripped);
        } else {
            let kept_row = row.clone();
            proof {
                assert(kept_row@ == strip_cr(kept[i as int]));
            }
            out.push(kept_row);
        }
        proof {
            assert(out.deep_view() =~= prev.push(strip_cr(kept[i as int])));
            assert(out.deep_view() =~= kept.map_values(|l: Seq<char>| strip_cr(l)).subrange(
                0,
                i as int + 1,
            ));
        }
        i = i + 1;
    }
    proof {
        assert(out.deep_view() =~= file_lines_spec(content@));
    }
    out
}

/// Render the entries one per row, each row closed by a newline.
pub fn render_path_file(entries: &Vec<String>) -> (r: String)
    ensures
        r@ == render_lines_spec(entries.deep_view()),
{
    let mut out = String::new();
    let mut i: usize = 0;
    proof {
        assert(entries.deep_view().subrange(0, 0) =~= Seq::<Seq<char>>::empty());
    }
    while i < entries.len()
        invariant
            i <= entries@.len(),
            out@ == render_lines_spec(entries.deep_view().subrange(0, i as int)),
        decreases entries@.len() - i,
    {
        out.append(entries[i].as_str());
        out.append("\n");
        proof {
            reveal_strlit("\n");
            assert("\n"@ =~= seq!['\n']);
            let pref = entries.deep_view().subrange(0, i as int + 1);
            assert(pref.drop_last() =~= entries.deep_view().subrange(0, i as int));
            assert(pref.last() == entries.deep_view()[i as int]);
            assert(entries.deep_view()[i as int] == entries@[i as int]@);
        }
        i = i + 1;
    }
    proof {
        assert(entries.deep_view().subrange(0, entries@.len() as int) =~= entries.deep_view());
    }
    out
}

proof fn lemma_render_unfold_left(es: Seq<Seq<char>>)
    requires
        es.len() > 0,
    ensures
        render_lines_spec(es) == es[0] + seq!['\n'] + render_lines_spec(es.drop_first()),
    decreases es.len(),
{
    if es.len() == 1 {
        assert(es.drop_last() =~= Seq::<Seq<char>>::empty());
        assert(es.drop_first() =~= Seq::<Seq<char>>::empty());
        assert(render_lines_spec(es) == render_lines_spec(es.drop_last()) + es.last()
            + seq!['\n']);
        assert(render_lines_spec(es) =~= es[0] + seq!['\n'] + render_lines_spec(es.drop_first()));
    } else {
        lemma_render_unfold_left(es.drop_last());
        assert(es.drop_last()[0] == es[0]);
        assert(es.drop_first().len() > 0);
        assert(es.drop_first().drop_last() =~= es.drop_last().drop_first());
        assert(es.drop_first().last() == es.last());
        assert(render_lines_spec(es.drop_first()) == render_lines_spec(
            es.drop_first().drop_last(),
        ) + es.drop_first().last() + seq!['\n']);
        assert(render_lines_spec(es) =~= es[0] + seq!['\n'] + render_lines_spec(es.drop_first()));
    }
}

proof fn lemma_split_render(es: Seq<Seq<char>>, acc: Seq<Seq<char>>)
    requires
        forall|i: int| 0 <= i < es.len() ==> !(#[trigger] es[i]).contains('\n'),
    ensures
        split_from(render_lines_spec(es), '\n', Seq::empty(), acc) == acc + es.push(Seq::empty()),
    decreases es.len(),
{
    if es.len() == 0 {
        assert(render_lines_spec(es).len() == 0);
        assert(acc.push(Seq::<char>::empty()) =~= acc + es.push(Seq::<char>::empty()));
    } else {
        lemma_render_unfold_left(es);
        let rest = es.drop_first();
        let head = es[0];
        lemma_split_from_append_sep(head, render_lines_spec(rest), '\n', Seq::empty(), acc);
        assert(forall|i: int| 0 <= i < head.len() ==> head[i] != '\n') by {
            assert(!es[0].contains('\n'));
            assert(forall|i: int| 0 <= i < head.len() && head[i] == '\n' ==> head.contains('\n'));
        }
        lemma_split_from_no_sep(head, '\n', Seq::empty(), acc);
        assert(Seq::<char>::empty() + head =~= head);
        assert(forall|i: int| 0 <= i < rest.len() ==> !(#[trigger] rest[i]).contains('\n')) by {
            assert(forall|i: int| 0 <= i < rest.len() ==> rest[i] == es[i + 1]);
        }
        lemma_split_render(rest, acc.push(head));
        assert(acc.push(head) + rest.push(Seq::<char>::empty()) =~= acc + es.push(
            Seq::<char>::empty(),
        ));
    }
}

/// Rendering a list of entries and parsing the text back gives the same
/// entries, provided no entry holds a line feed and none ends with a
/// carriage return; such an entry cannot survive a line-per-entry file.
pub proof fn lemma_path_file_round_trip(entries: Seq<Seq<char>>)
    requires
        forall|i: int| 0 <= i < entries.len() ==> !(#[trigger] entries[i]).contains('\n'),
        forall|i: int|
            0 <= i < entries.len() ==> ((#[trigger] entries[i]).len() == 0 || entries[i].last()
                != '\r'),
    ensures
        file_lines_spec(render_lines_spec(entries)) == entries,
{
    lemma_split_render(entries, Seq::empty());
    let raw = split_char(render_lines_spec(entries), '\n');
    assert(raw == Seq::<Seq<char>>::empty() + entries.push(Seq::empty()));
    assert(raw =~= entries.push(Seq::<char>::empty()));
    assert(raw.last().len() == 0);
    assert(raw.drop_last() =~= entries);
    assert(file_lines_spec(render_lines_spec(entries)) =~= entries) by {
        assert(forall|i: int|
            0 <= i < entries.len() ==> #[trigger] strip_cr(entries[i]) == entries[i]);
    }
}

} // verus!
