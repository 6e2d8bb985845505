//! Links in a row of the grid: which one, if any, is under the mouse.

use vstd::prelude::*;
use vstd::utf8;

use crate::cell::Cell;
use crate::grid::WIDE_CONT;
use crate::text;
use crate::urls;
use crate::vt;

verus! {

/// A URL under the mouse.
#[derive(Debug, Clone, PartialEq, Eq)]
pub struct UrlHit {
    pub view_row: usize,
    pub start_col: usize,
    pub end_col: usize,
    pub url: String,
}

/// The characters of a row, without the right halves of wide glyphs.
pub open spec fn row_chars(cells: Seq<Cell>) -> Seq<char>
    decreases cells.len(),
{
    if cells.len() == 0 {
        Seq::empty()
    } else if cells.last().ch == WIDE_CONT {
        row_chars(cells.drop_last())
    } else {
        row_chars(cells.drop_last()).push(cells.last().ch)
    }
}

/// The columns of these characters.
pub open spec fn row_cols(cells: Seq<Cell>) -> Seq<int>
    decreases cells.len(),
{
    if cells.len() == 0 {
        Seq::empty()
    } else if cells.last().ch == WIDE_CONT {
        row_cols(cells.drop_last())
    } else {
        row_cols(cells.drop_last()).push(cells.len() - 1)
    }
}

/// For each byte of a text in UTF-8, the index of the character it belongs to.
pub open spec fn byte_owners(chars: Seq<char>) -> Seq<int>
    decreases chars.len(),
{
    if chars.len() == 0 {
        Seq::empty()
    } else {
        byte_owners(chars.drop_last()) + Seq::new(
            vt::encoded(chars.last()).len(),
            |i: int| chars.len() - 1,
        )
    }
}

/// A link as characters and columns: the characters from `first` to `last`, in
/// the columns from `start` to before `end`.
pub struct LinkModel {
    pub first: int,
    pub last: int,
    pub start: int,
    pub end: int,
}

/// The link that a range of bytes of the row's text stands for.
pub open spec fn link_of(cells: Seq<Cell>, range: (int, int)) -> LinkModel {
    let owners = byte_owners(text::trimmed_end(row_chars(cells)));
    let cols = row_cols(cells);
    let first = owners[range.0];
    let last = owners[range.1 - 1];
    LinkModel { first, last, start: cols[first], end: cols[last] + 1 }
}

/// The text of a link.
pub open spec fn link_text(cells: Seq<Cell>, link: LinkModel) -> Seq<char> {
    row_chars(cells).subrange(link.first, link.last + 1)
}

/// The first of the URLs from the `k`-th on that covers a column.
pub open spec fn link_from(cells: Seq<Cell>, k: int, col: int) -> Option<LinkModel>
    decreases urls::urls_from(
        utf8::encode_utf8(text::trimmed_end(row_chars(cells))),
        0,
    ).len() - k,
{
    let ranges = urls::urls_from(utf8::encode_utf8(text::trimmed_end(row_chars(cells))), 0);
    if k < 0 || k >= ranges.len() {
        None
    } else {
        let link = link_of(cells, ranges[k]);
        if link.start <= col < link.end {
            Some(link)
        } else {
            link_from(cells, k + 1, col)
        }
    }
}

/// The URL of a row that covers a column.
pub open spec fn link_at(cells: Seq<Cell>, col: int) -> Option<LinkModel> {
    link_from(cells, 0, col)
}

proof fn columns_of_chars(cells: Seq<Cell>)
    ensures
        row_cols(cells).len() == row_chars(cells).len(),
        forall|i: int|
            0 <= i < row_cols(cells).len() ==> 0 <= #[trigger] row_cols(cells)[i] < cells.len(),
    decreases cells.len(),
{
    if cells.len() > 0 {
        columns_of_chars(cells.drop_last());
    }
}

proof fn owners_of_bytes(chars: Seq<char>)
    ensures
        byte_owners(chars).len() == utf8::encode_utf8(chars).len(),
        forall|i: int|
            0 <= i < byte_owners(chars).len() ==> 0 <= #[trigger] byte_owners(chars)[i]
                < chars.len(),
        forall|i: int, j: int|
            0 <= i <= j < byte_owners(chars).len() ==> #[trigger] byte_owners(chars)[i]
                <= #[trigger] byte_owners(chars)[j],
    decreases chars.len(),
{
    if chars.len() > 0 {
        let front = chars.drop_last();
        let c = chars.last();
        owners_of_bytes(front);
        assert(chars =~= front + seq![c]);
        crate::parser::encode_concat(front, seq![c]);
        crate::parser::encode_one(c);
    } else {
        assert(utf8::encode_utf8(chars) =~= Seq::<u8>::empty());
    }
}

proof fn trimmed_is_prefix(chars: Seq<char>)
    ensures
        text::trimmed_end(chars).len() <= chars.len(),
        text::trimmed_end(chars) == chars.take(text::trimmed_end(chars).len() as int),
    decreases chars.len(),
{
    if chars.len() > 0 && text::is_white_space(chars.last()) {
        trimmed_is_prefix(chars.drop_last());
        let n = text::trimmed_end(chars).len() as int;
        assert(chars.drop_last().take(n) =~= chars.take(n));
    } else {
        assert(chars.take(chars.len() as int) =~= chars);
    }
}

/// The number of bytes of a character in UTF-8.
fn encoded_len(c: char) -> (n: usize)
    ensures
        n == vt::encoded(c).len(),
        n <= 4,
{
    let v: u32 = c as u32;
    if v <= 0x7f {
        1
    } else if v <= 0x7ff {
        2
    } else if v <= 0xffff {
        3
    } else {
        4
    }
}

/// The URL of a row that covers a column, as the mouse points at it.
pub fn url_hit_in_row(cells: &[Cell], view_row: usize, click_col: usize) -> (r: Option<UrlHit>)
    ensures
        match r {
            Some(hit) => {
                &&& hit.view_row == view_row
                &&& link_at(cells@, click_col as int) matches Some(link)
                &&& hit.start_col == link.start
                &&& hit.end_col == link.end
                &&& hit.url@ == row_chars(cells@).subrange(link.first, link.last + 1)
                &&& hit.url@ == link_text(cells@, link)
            },
            None => link_at(cells@, click_col as int) is None,
        },
{
    let ghost all = row_chars(cells@);
    let mut chars: Vec<char> = Vec::new();
    let mut cols: Vec<usize> = Vec::new();
    assert(cells@.take(0) =~= Seq::<Cell>::empty());
    for c in 0..cells.len()
        invariant
            chars@ == row_chars(cells@.take(c as int)),
            cols@.len() == row_cols(cells@.take(c as int)).len(),
            forall|i: int|
                0 <= i < cols@.len() ==> #[trigger] cols@[i] == row_cols(cells@.take(c as int))[i],
    {
        assert(cells@.take(c + 1).drop_last() =~= cells@.take(c as int));
        if cells[c].ch != WIDE_CONT {
            chars.push(cells[c].ch);
            cols.push(c);
        }
    }
    assert(cells@.take(cells@.len() as int) =~= cells@);
    let n: usize = text::trimmed_end_len(&chars);
    let ghost kept = text::trimmed_end(all);
    proof {
        columns_of_chars(cells@);
        trimmed_is_prefix(all);
        owners_of_bytes(kept);
        assert(kept =~= chars@.take(n as int));
        urls::urls_are_ranges(utf8::encode_utf8(kept), 0);
    }
    let mut row_text: String = String::new();
    let mut owners: Vec<usize> = Vec::new();
    assert(kept.take(0) =~= Seq::<char>::empty());
    for i in 0..n
        invariant
            n <= chars@.len(),
            kept == chars@.take(n as int),
            row_text@ == kept.take(i as int),
            owners@.len() == byte_owners(kept.take(i as int)).len(),
            forall|k: int|
                0 <= k < owners@.len() ==> #[trigger] owners@[k] == byte_owners(
                    kept.take(i as int),
                )[k],
    {
        let c: char = chars[i];
        assert(kept.take(i + 1).drop_last() =~= kept.take(i as int));
        assert(kept.take(i + 1).last() == c);
        row_text.push(c);
        assert(row_text@ =~= kept.take(i + 1));
        let len: usize = encoded_len(c);
        let ghost before = owners@;
        for k in 0..len
            invariant
                owners@.len() == before.len() + k,
                forall|j: int|
                    0 <= j < owners@.len() ==> #[trigger] owners@[j] == if j < before.len() {
                        before[j]
                    } else {
                        i
                    },
        {
            owners.push(i);
        }
    }
    assert(kept.take(n as int) =~= kept);
    let ranges = urls::find_urls(row_text.as_str());
    let ghost model = urls::urls_from(utf8::encode_utf8(kept), 0);
    for k in 0..ranges.len()
        invariant
            all == row_chars(cells@),
            kept == text::trimmed_end(all),
            chars@ == all,
            kept.len() <= all.len(),
            model == urls::urls_from(utf8::encode_utf8(kept), 0),
            urls::pairs_of(ranges@) == model,
            forall|j: int|
                0 <= j < model.len() ==> urls::is_url(
                    utf8::encode_utf8(kept),
                    0,
                    #[trigger] model[j],
                ),
            byte_owners(kept).len() == utf8::encode_utf8(kept).len(),
            forall|j: int|
                0 <= j < byte_owners(kept).len() ==> 0 <= #[trigger] byte_owners(kept)[j]
                    < kept.len(),
            forall|i: int, j: int|
                0 <= i <= j < byte_owners(kept).len() ==> #[trigger] byte_owners(kept)[i]
                    <= #[trigger] byte_owners(kept)[j],
            owners@.len() == byte_owners(kept).len(),
            forall|j: int| 0 <= j < owners@.len() ==> #[trigger] owners@[j] == byte_owners(kept)[j],
            cols@.len() == row_cols(cells@).len(),
            cols@.len() == all.len(),
            forall|j: int| 0 <= j < cols@.len() ==> #[trigger] cols@[j] == row_cols(cells@)[j],
            forall|j: int|
                0 <= j < row_cols(cells@).len() ==> 0 <= #[trigger] row_cols(cells@)[j]
                    < cells@.len(),
            link_from(cells@, k as int, click_col as int) == link_at(cells@, click_col as int),
    {
        assert(urls::is_url(utf8::encode_utf8(kept), 0, model[k as int]));
        let start: usize = ranges[k].start;
        let end: usize = ranges[k].end;
        assert(model[k as int] == (start as int, end as int));
        let first: usize = owners[start];
        let last: usize = owners[end - 1];
        assert(byte_owners(kept)[start as int] <= byte_owners(kept)[end - 1]);
        let start_col: usize = cols[first];
        let last_col: usize = cols[last];
        assert(row_cols(cells@)[last as int] < cells@.len());
        let len: usize = cells.len();
        let end_col: usize = last_col + 1;
        if click_col >= start_col && click_col < end_col {
            let count: usize = chars.len();
            assert(last < count);
            let mut url: String = String::new();
            for i in first..last + 1
                invariant
                    chars@ == all,
                    first <= last < all.len(),
                    url@ == all.subrange(first as int, i as int),
            {
                url.push(chars[i]);
                assert(url@ =~= all.subrange(first as int, i + 1));
            }
            return Some(UrlHit { view_row, start_col, end_col, url });
        }
    }
    None
}

/// Each character of a row stands in its own column, left to right.
proof fn columns_in_order(cells: Seq<Cell>)
    ensures
        row_cols(cells).len() == row_chars(cells).len(),
        forall|i: int|
            0 <= i < row_cols(cells).len() ==> 0 <= #[trigger] row_cols(cells)[i] < cells.len()
                && cells[row_cols(cells)[i]].ch == row_chars(cells)[i] && row_chars(cells)[i]
                != WIDE_CONT,
        forall|i: int, j: int|
            0 <= i < j < row_cols(cells).len() ==> #[trigger] row_cols(cells)[i]
                < #[trigger] row_cols(cells)[j],
        forall|c: int|
            0 <= c < cells.len() && (#[trigger] cells[c]).ch != WIDE_CONT ==> row_cols(
                cells,
            ).contains(c),
    decreases cells.len(),
{
    let cols = row_cols(cells);
    if cells.len() > 0 {
        let front = cells.drop_last();
        columns_in_order(front);
        let before = row_cols(front);
        assert forall|i: int| 0 <= i < cols.len() implies 0 <= #[trigger] cols[i] < cells.len()
            && cells[cols[i]].ch == row_chars(cells)[i] && row_chars(cells)[i] != WIDE_CONT by {
            if i < before.len() {
                assert(cols[i] == before[i]);
                assert(front[before[i]] == cells[before[i]]);
            }
        }
        assert forall|i: int, j: int| 0 <= i < j < cols.len() implies #[trigger] cols[i]
            < #[trigger] cols[j] by {
            if j < before.len() {
                assert(before[i] < before[j]);
            } else {
                assert(cols[i] == before[i]);
            }
        }
        assert forall|c: int|
            0 <= c < cells.len() && (#[trigger] cells[c]).ch != WIDE_CONT implies cols.contains(
            c,
        ) by {
            if c < front.len() {
                assert(front[c].ch != WIDE_CONT);
                let k = choose|k: int| 0 <= k < before.len() && before[k] == c;
                assert(cols[k] == c);
            } else {
                assert(cols[cols.len() - 1] == c);
            }
        }
    }
}

/// The link at a column covers that column, and its text is what the row shows in the
/// columns it covers: the character in each of them, in order, without the right
/// halves of wide glyphs.
pub proof fn link_is_under_the_mouse(cells: Seq<Cell>, col: int, link: LinkModel)
    requires
        link_at(cells, col) == Some(link),
    ensures
        link.start <= col < link.end <= cells.len(),
        0 <= link.first <= link.last < row_chars(cells).len(),
        row_cols(cells)[link.first] == link.start,
        row_cols(cells)[link.last] == link.end - 1,
        forall|i: int|
            0 <= i < row_chars(cells).len() ==> (link.first <= i <= link.last <==> link.start
                <= #[trigger] row_cols(cells)[i] < link.end),
        forall|i: int|
            0 <= i < row_chars(cells).len() ==> cells[#[trigger] row_cols(cells)[i]].ch
                == row_chars(cells)[i],
        cells[link.start].ch == row_chars(cells)[link.first],
        exists|k: int|
            0 <= k < urls::urls_from(
                utf8::encode_utf8(text::trimmed_end(row_chars(cells))),
                0,
            ).len() && link == link_of(
                cells,
                #[trigger] urls::urls_from(
                    utf8::encode_utf8(text::trimmed_end(row_chars(cells))),
                    0,
                )[k],
            ),
{
    link_from_facts(cells, 0, col, link);
    columns_in_order(cells);
    let cols = row_cols(cells);
    assert forall|i: int| 0 <= i < row_chars(cells).len() implies (link.first <= i <= link.last
        <==> link.start <= #[trigger] cols[i] < link.end) by {
        if i < link.first {
            assert(cols[i] < cols[link.first]);
        }
        if link.first < i {
            assert(cols[link.first] < cols[i]);
        }
        if i < link.last {
            assert(cols[i] < cols[link.last]);
        }
        if link.last < i {
            assert(cols[link.last] < cols[i]);
        }
    }
}

proof fn link_from_facts(cells: Seq<Cell>, k: int, col: int, link: LinkModel)
    requires
        k >= 0,
        link_from(cells, k, col) == Some(link),
    ensures
        link.start <= col < link.end <= cells.len(),
        0 <= link.first <= link.last < row_chars(cells).len(),
        row_cols(cells)[link.first] == link.start,
        row_cols(cells)[link.last] == link.end - 1,
        exists|m: int|
            0 <= m < urls::urls_from(
                utf8::encode_utf8(text::trimmed_end(row_chars(cells))),
                0,
            ).len() && link == link_of(
                cells,
                #[trigger] urls::urls_from(
                    utf8::encode_utf8(text::trimmed_end(row_chars(cells))),
                    0,
                )[m],
            ),
    decreases urls::urls_from(
        utf8::encode_utf8(text::trimmed_end(row_chars(cells))),
        0,
    ).len() - k,
{
    let kept = text::trimmed_end(row_chars(cells));
    let s = utf8::encode_utf8(kept);
    let ranges = urls::urls_from(s, 0);
    columns_of_chars(cells);
    trimmed_is_prefix(row_chars(cells));
    owners_of_bytes(kept);
    urls::urls_are_ranges(s, 0);
    assert(urls::is_url(s, 0, ranges[k]));
    let here = link_of(cells, ranges[k]);
    if here.start <= col < here.end {
        assert(byte_owners(kept)[ranges[k].0] <= byte_owners(kept)[ranges[k].1 - 1]);
        assert(link == link_of(cells, ranges[k]));
    } else {
        link_from_facts(cells, k + 1, col, link);
    }
}

/// Every URL of a row can be pointed at: each column that it covers gives a link.
pub proof fn no_link_is_missed(cells: Seq<Cell>, k: int, m: int, col: int)
    requires
        0 <= k <= m < urls::urls_from(
            utf8::encode_utf8(text::trimmed_end(row_chars(cells))),
            0,
        ).len(),
        ({
            let range = urls::urls_from(
                utf8::encode_utf8(text::trimmed_end(row_chars(cells))),
                0,
            )[m];
            link_of(cells, range).start <= col < link_of(cells, range).end
        }),
    ensures
        link_from(cells, k, col) is Some,
    decreases m - k,
{
    if k < m {
        no_link_is_missed(cells, k + 1, m, col);
    }
}

/// The bytes of one character: a single ASCII byte, or several beyond ASCII of which
/// all but the first continue it.
proof fn encoded_bytes(c: char)
    ensures
        vt::encoded(c).len() >= 1,
        vt::encoded(c).len() > 1 ==> forall|k: int|
            0 <= k < vt::encoded(c).len() ==> #[trigger] vt::encoded(c)[k] >= 0x80,
        forall|k: int|
            1 <= k < vt::encoded(c).len() ==> utf8::is_continuation_byte(
                #[trigger] vt::encoded(c)[k],
            ),
{
    let v = c as u32;
    assert(0xc0u8 | ((v >> 6) & 0x1f) as u8 >= 0x80u8) by (bit_vector);
    assert(0xe0u8 | ((v >> 12) & 0x0f) as u8 >= 0x80u8) by (bit_vector);
    assert(0xf0u8 | ((v >> 18) & 0x7) as u8 >= 0x80u8) by (bit_vector);
    assert(0x80u8 <= (0x80u8 | (v & 0x3f) as u8) <= 0xbfu8) by (bit_vector);
    assert(0x80u8 <= (0x80u8 | ((v >> 6) & 0x3f) as u8) <= 0xbfu8) by (bit_vector);
    assert(0x80u8 <= (0x80u8 | ((v >> 12) & 0x3f) as u8) <= 0xbfu8) by (bit_vector);
}

/// Where the byte at `j` stands in the character it belongs to.
proof fn owner_of_byte(chars: Seq<char>, j: int)
    requires
        0 <= j < byte_owners(chars).len(),
    ensures
        ({
            let i = byte_owners(chars)[j];
            let from = utf8::encode_utf8(chars.take(i)).len();
            let to = utf8::encode_utf8(chars.take(i + 1)).len();
            &&& 0 <= i < chars.len()
            &&& from <= j < to
            &&& to == from + vt::encoded(chars[i]).len()
            &&& utf8::encode_utf8(chars)[j] == vt::encoded(chars[i])[j - from]
        }),
    decreases chars.len(),
{
    let front = chars.drop_last();
    let c = chars.last();
    let n = chars.len() - 1;
    owners_of_bytes(front);
    owners_of_bytes(chars);
    assert(chars =~= front + seq![c]);
    crate::parser::encode_concat(front, seq![c]);
    crate::parser::encode_one(c);
    if j < byte_owners(front).len() {
        owner_of_byte(front, j);
        let i = byte_owners(front)[j];
        assert(byte_owners(chars)[j] == i);
        assert(front.take(i) =~= chars.take(i));
        assert(front.take(i + 1) =~= chars.take(i + 1));
    } else {
        assert(byte_owners(chars)[j] == n);
        assert(chars.take(n) =~= front);
        assert(chars.take(n + 1) =~= chars);
    }
}

/// The text of a link is the URL that was found, character for character.
pub proof fn link_text_is_the_url(cells: Seq<Cell>, k: int)
    requires
        0 <= k < urls::urls_from(
            utf8::encode_utf8(text::trimmed_end(row_chars(cells))),
            0,
        ).len(),
    ensures
        ({
            let s = utf8::encode_utf8(text::trimmed_end(row_chars(cells)));
            let range = urls::urls_from(s, 0)[k];
            let link = link_of(cells, range);
            utf8::encode_utf8(link_text(cells, link)) == s.subrange(range.0, range.1)
        }),
{
    let all = row_chars(cells);
    let kept = text::trimmed_end(all);
    let s = utf8::encode_utf8(kept);
    let range = urls::urls_from(s, 0)[k];
    let (a, b) = range;
    let link = link_of(cells, range);
    trimmed_is_prefix(all);
    owners_of_bytes(kept);
    urls::urls_are_ranges(s, 0);
    assert(urls::is_url(s, 0, range));
    owner_of_byte(kept, a);
    owner_of_byte(kept, b - 1);
    let first = link.first;
    let last = link.last;
    encoded_bytes(kept[first]);
    encoded_bytes(kept[last]);
    let from = utf8::encode_utf8(kept.take(first)).len() as int;
    let to = utf8::encode_utf8(kept.take(last + 1)).len() as int;
    assert(vt::encoded(kept[first])[a - from] < 0x80);
    assert(from == a);
    if b < to {
        let start = utf8::encode_utf8(kept.take(last)).len() as int;
        let whole = kept.take(last + 1);
        assert(kept =~= whole + kept.skip(last + 1));
        crate::parser::encode_concat(whole, kept.skip(last + 1));
        assert(whole =~= kept.take(last) + seq![kept[last]]);
        crate::parser::encode_concat(kept.take(last), seq![kept[last]]);
        crate::parser::encode_one(kept[last]);
        assert(s[b] == vt::encoded(kept[last])[b - start]);
        assert(utf8::is_continuation_byte(s[b]));
    }
    assert(to == b);
    let before = kept.take(first);
    let middle = kept.subrange(first, last + 1);
    let behind = kept.skip(last + 1);
    assert(byte_owners(kept)[a] <= byte_owners(kept)[b - 1]);
    assert(kept.take(last + 1) =~= before + middle);
    crate::parser::encode_concat(before, middle);
    assert(kept =~= kept.take(last + 1) + behind);
    crate::parser::encode_concat(kept.take(last + 1), behind);
    assert(middle =~= all.subrange(first, last + 1));
    assert(s.subrange(a, b) =~= utf8::encode_utf8(middle));
}

/// The text of the link at a column is one character for each column that the link
/// covers, left to right, the right halves of wide glyphs aside.
pub proof fn link_text_is_what_is_shown(cells: Seq<Cell>, col: int, link: LinkModel, i: int)
    requires
        link_at(cells, col) == Some(link),
    ensures
        ({
            let text = link_text(cells, link);
            let cols = row_cols(cells).subrange(link.first, link.last + 1);
            &&& text.len() == cols.len()
            &&& cols[0] == link.start
            &&& cols.last() == link.end - 1
            &&& 0 <= i < text.len() ==> link.start <= cols[i] < link.end && text[i]
                == cells[cols[i]].ch && text[i] != WIDE_CONT
            &&& 0 < i < text.len() ==> cols[i - 1] < cols[i] && forall|c: int|
                cols[i - 1] < c < cols[i] ==> (#[trigger] cells[c]).ch == WIDE_CONT
        }),
{
    link_is_under_the_mouse(cells, col, link);
    columns_in_order(cells);
    let all = row_cols(cells);
    let cols = all.subrange(link.first, link.last + 1);
    if 0 <= i < cols.len() {
        assert(cols[i] == all[link.first + i]);
        assert(link.start <= all[link.first + i] < link.end);
    }
    if 0 < i < cols.len() {
        let a = link.first + i - 1;
        assert(all[a] < all[a + 1]);
        assert forall|c: int| all[a] < c < all[a + 1] implies (#[trigger] cells[c]).ch
            == WIDE_CONT by {
            if cells[c].ch != WIDE_CONT {
                let k = choose|k: int| 0 <= k < all.len() && all[k] == c;
                if k <= a {
                    if k < a {
                        assert(all[k] < all[a]);
                    }
                } else if k > a + 1 {
                    assert(all[a + 1] < all[k]);
                }
            }
        }
    }
}

} // verus!
