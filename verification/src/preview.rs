//! The blocks a file preview is drawn as: blank space, a title, a table, a
//! list item, a source link, or a line of text.
use vstd::prelude::*;
use crate::text::{
    chars_of, contains, contains_exec, ends_with, ends_with_exec, lines, lines_exec, starts_with,
    starts_with_exec, string_of, strip_prefix, strip_prefix_exec, trim, trim_exec, views,
};

verus! {

/// A block of the preview.
pub enum PreviewBlock {
    /// A blank line.
    Space,
    /// A `# ` heading, without its marker.
    Title(String),
    /// A run of `|` rows: the cells of each row, rule rows left out.
    Table(Vec<Vec<String>>),
    /// A `- ` list item, without its marker.
    Bullet(String),
    /// The link after `来源链接：`.
    SourceLink(String),
    /// Any other line; `true` when it is drawn muted (a status or time line).
    Text(String, bool),
}

/// A preview block over character sequences.
pub enum BlockView {
    Space,
    Title(Seq<char>),
    Table(Seq<Seq<Seq<char>>>),
    Bullet(Seq<char>),
    SourceLink(Seq<char>),
    Text(Seq<char>, bool),
}

pub open spec fn rows_view(rows: Seq<Vec<String>>) -> Seq<Seq<Seq<char>>> {
    rows.map_values(|r: Vec<String>| views(r@))
}

impl View for PreviewBlock {
    type V = BlockView;

    open spec fn view(&self) -> BlockView {
        match self {
            PreviewBlock::Space => BlockView::Space,
            PreviewBlock::Title(t) => BlockView::Title(t@),
            PreviewBlock::Table(rows) => BlockView::Table(rows_view(rows@)),
            PreviewBlock::Bullet(t) => BlockView::Bullet(t@),
            PreviewBlock::SourceLink(t) => BlockView::SourceLink(t@),
            PreviewBlock::Text(t, m) => BlockView::Text(t@, *m),
        }
    }
}

pub open spec fn block_views(v: Seq<PreviewBlock>) -> Seq<BlockView> {
    v.map_values(|b: PreviewBlock| b@)
}

/// A trimmed line that opens and closes with `|`.
pub open spec fn is_table_row(row: Seq<char>) -> bool {
    starts_with(row, "|"@) && ends_with(row, "|"@)
}

/// A rule row: nothing but `|`, spaces and `-`.
pub open spec fn is_rule_row(row: Seq<char>) -> bool {
    forall|i: int| 0 <= i < row.len() ==> (#[trigger] row[i] == '|' || row[i] == ' ' || row[i] == '-')
}

/// How many `c` open `s`.
pub open spec fn leading_count(s: Seq<char>, c: char) -> nat
    decreases s.len(),
{
    if s.len() == 0 || s[0] != c {
        0
    } else {
        1 + leading_count(s.drop_first(), c)
    }
}

/// How many `c` close `s`.
pub open spec fn trailing_count(s: Seq<char>, c: char) -> nat
    decreases s.len(),
{
    if s.len() == 0 || s.last() != c {
        0
    } else {
        1 + trailing_count(s.drop_last(), c)
    }
}

/// `str::trim_matches('|')`: `s` without the `|` that open and close it.
pub open spec fn trim_bars(s: Seq<char>) -> Seq<char> {
    let l = leading_count(s, '|');
    if l >= s.len() {
        Seq::empty()
    } else {
        s.subrange(l as int, s.len() - trailing_count(s, '|'))
    }
}

/// `str::split(c)` of `s[i..]`, where `cur` is the unfinished piece before `i`.
pub open spec fn split_from(s: Seq<char>, c: char, i: int, cur: Seq<char>) -> Seq<Seq<char>>
    decreases s.len() - i,
{
    if i >= s.len() {
        seq![cur]
    } else if s[i] == c {
        seq![cur] + split_from(s, c, i + 1, Seq::empty())
    } else {
        split_from(s, c, i + 1, cur.push(s[i]))
    }
}

/// `str::split(c)`: the pieces between the occurrences of `c`, empty ones included.
pub open spec fn split_char(s: Seq<char>, c: char) -> Seq<Seq<char>> {
    split_from(s, c, 0, Seq::empty())
}

/// The cells of a table row, each trimmed.
pub open spec fn row_cells(row: Seq<char>) -> Seq<Seq<char>> {
    split_char(trim_bars(row), '|').map_values(|cell: Seq<char>| trim(cell))
}

/// The table rows from line `i` on, and the line after the table: rows run
/// while the trimmed line opens and closes with `|`; rule rows are skipped.
pub open spec fn table_from(ls: Seq<Seq<char>>, i: nat) -> (Seq<Seq<Seq<char>>>, nat)
    decreases ls.len() - i,
{
    if i >= ls.len() {
        (Seq::empty(), i)
    } else if !is_table_row(trim(ls[i as int])) {
        (Seq::empty(), i)
    } else if is_rule_row(trim(ls[i as int])) {
        table_from(ls, i + 1)
    } else {
        let rest = table_from(ls, i + 1);
        (seq![row_cells(trim(ls[i as int]))] + rest.0, rest.1)
    }
}

/// The block that a line opens, given the lines (tables are handled apart).
pub open spec fn line_block(t: Seq<char>) -> BlockView {
    if t.len() == 0 {
        BlockView::Space
    } else if strip_prefix(t, "# "@) is Some {
        BlockView::Title(strip_prefix(t, "# "@)->0)
    } else if strip_prefix(t, "- "@) is Some {
        BlockView::Bullet(strip_prefix(t, "- "@)->0)
    } else if strip_prefix(t, "来源链接："@) is Some {
        BlockView::SourceLink(strip_prefix(t, "来源链接："@)->0)
    } else {
        BlockView::Text(t, contains(t, "来源状态"@) || contains(t, "采集时间"@))
    }
}

/// A trimmed line that opens a table, when another line follows it.
pub open spec fn opens_table(ls: Seq<Seq<char>>, i: int) -> bool {
    let t = trim(ls[i]);
    &&& t.len() > 0
    &&& strip_prefix(t, "# "@) is None
    &&& starts_with(t, "| "@)
    &&& ends_with(t, " |"@)
    &&& i + 1 < ls.len()
}

/// The blocks of the lines from `i` on.
pub open spec fn blocks_from(ls: Seq<Seq<char>>, i: nat) -> Seq<BlockView>
    decreases ls.len() - i,
{
    if i >= ls.len() {
        Seq::empty()
    } else if opens_table(ls, i as int) {
        let tb = table_from(ls, i);
        if i < tb.1 <= ls.len() {
            seq![BlockView::Table(tb.0)] + blocks_from(ls, tb.1)
        } else {
            seq![BlockView::Table(tb.0)] + blocks_from(ls, i + 1)
        }
    } else {
        seq![line_block(trim(ls[i as int]))] + blocks_from(ls, i + 1)
    }
}

/// The blocks of a preview text, line by line.
pub open spec fn preview_block_views(text: Seq<char>) -> Seq<BlockView> {
    blocks_from(lines(text), 0)
}

proof fn lemma_table_from_bounds(ls: Seq<Seq<char>>, i: nat)
    ensures
        i <= table_from(ls, i).1,
        i < ls.len() ==> table_from(ls, i).1 <= ls.len(),
        i < ls.len() && is_table_row(trim(ls[i as int])) ==> i < table_from(ls, i).1,
    decreases ls.len() - i,
{
    if i < ls.len() && is_table_row(trim(ls[i as int])) {
        lemma_table_from_bounds(ls, i + 1);
    }
}

fn is_rule_row_exec(row: &Vec<char>) -> (r: bool)
    ensures
        r == is_rule_row(row@),
{
    let mut i: usize = 0;
    while i < row.len()
        invariant
            i <= row.len(),
            forall|j: int| 0 <= j < i ==> (#[trigger] row@[j] == '|' || row@[j] == ' ' || row@[j] == '-'),
        decreases row.len() - i,
    {
        let c = row[i];
        if !(c == '|' || c == ' ' || c == '-') {
            return false;
        }
        i = i + 1;
    }
    true
}

proof fn lemma_leading_count(s: Seq<char>, c: char, i: int)
    requires
        0 <= i <= s.len(),
        forall|j: int| 0 <= j < i ==> s[j] == c,
        i == s.len() || s[i] != c,
    ensures
        leading_count(s, c) == i,
    decreases i,
{
    if i > 0 {
        lemma_leading_count(s.drop_first(), c, i - 1);
    }
}

proof fn lemma_trailing_count(s: Seq<char>, c: char, i: int)
    requires
        0 <= i <= s.len(),
        forall|j: int| s.len() - i <= j < s.len() ==> s[j] == c,
        i == s.len() || s[s.len() - 1 - i] != c,
    ensures
        trailing_count(s, c) == i,
    decreases i,
{
    if i > 0 {
        lemma_trailing_count(s.drop_last(), c, i - 1);
    }
}

fn trim_bars_exec(s: &Vec<char>) -> (r: Vec<char>)
    ensures
        r@ == trim_bars(s@),
{
    let n = s.len();
    let mut l: usize = 0;
    while l < n && s[l] == '|'
        invariant
            l <= n == s.len(),
            forall|j: int| 0 <= j < l ==> s@[j] == '|',
        decreases n - l,
    {
        l = l + 1;
    }
    proof {
        lemma_leading_count(s@, '|', l as int);
    }
    if l >= n {
        return Vec::new();
    }
    let mut t: usize = 0;
    while t < n && s[n - 1 - t] == '|'
        invariant
            t <= n == s.len(),
            forall|j: int| n - t <= j < n ==> s@[j] == '|',
        decreases n - t,
    {
        t = t + 1;
    }
    proof {
        lemma_trailing_count(s@, '|', t as int);
    }
    assert(t < n - l) by {
        if t >= n - l {
            assert(s@[l as int] == '|');
        }
    }
    let mut r: Vec<char> = Vec::new();
    let mut i = l;
    while i < n - t
        invariant
            l <= i <= n - t,
            n == s.len(),
            r@ == s@.subrange(l as int, i as int),
        decreases n - t - i,
    {
        r.push(s[i]);
        assert(s@.subrange(l as int, i + 1) =~= s@.subrange(l as int, i as int).push(s@[i as int]));
        i = i + 1;
    }
    r
}

/// The trimmed cells of `str::split('|')` of `s`.
fn split_cells(s: &Vec<char>) -> (r: Vec<String>)
    ensures
        views(r@) == split_char(s@, '|').map_values(|cell: Seq<char>| trim(cell)),
{
    let ghost f = |cell: Seq<char>| trim(cell);
    let mut out: Vec<String> = Vec::new();
    let mut cur: Vec<char> = Vec::new();
    let mut i: usize = 0;
    while i < s.len()
        invariant
            i <= s.len(),
            f == (|cell: Seq<char>| trim(cell)),
            views(out@) + split_from(s@, '|', i as int, cur@).map_values(f) == split_char(
                s@,
                '|',
            ).map_values(f),
        decreases s.len() - i,
    {
        let c = s[i];
        if c == '|' {
            let ghost before = views(out@);
            let t = trim_exec(&cur);
            out.push(string_of(&t));
            assert(views(out@) =~= before.push(trim(cur@)));
            let ghost rest = split_from(s@, '|', i + 1, Seq::empty());
            assert((seq![cur@] + rest).map_values(f) =~= seq![trim(cur@)] + rest.map_values(f));
            assert(before + (seq![trim(cur@)] + rest.map_values(f)) =~= before.push(trim(cur@))
                + rest.map_values(f));
            cur = Vec::new();
            assert(cur@ =~= Seq::<char>::empty());
        } else {
            cur.push(c);
        }
        i = i + 1;
    }
    let ghost before = views(out@);
    let t = trim_exec(&cur);
    out.push(string_of(&t));
    assert(seq![cur@].map_values(f) =~= seq![trim(cur@)]);
    assert(views(out@) =~= before + seq![trim(cur@)]);
    out
}

fn row_cells_exec(row: &Vec<char>) -> (r: Vec<String>)
    ensures
        views(r@) == row_cells(row@),
{
    let inner = trim_bars_exec(row);
    split_cells(&inner)
}

fn is_table_row_exec(row: &Vec<char>) -> (r: bool)
    ensures
        r == is_table_row(row@),
{
    let bar = chars_of("|");
    starts_with_exec(row, &bar) && ends_with_exec(row, &bar)
}

fn line_block_exec(t: &Vec<char>) -> (r: PreviewBlock)
    ensures
        r@ == line_block(t@),
{
    if t.len() == 0 {
        return PreviewBlock::Space;
    }
    if let Some(rest) = strip_prefix_exec(t, &chars_of("# ")) {
        return PreviewBlock::Title(string_of(&rest));
    }
    if let Some(rest) = strip_prefix_exec(t, &chars_of("- ")) {
        return PreviewBlock::Bullet(string_of(&rest));
    }
    if let Some(rest) = strip_prefix_exec(t, &chars_of("来源链接：")) {
        return PreviewBlock::SourceLink(string_of(&rest));
    }
    let muted = contains_exec(t, &chars_of("来源状态")) || contains_exec(t, &chars_of("采集时间"));
    PreviewBlock::Text(string_of(t), muted)
}

/// The blocks of a preview text, as the preview pane draws them line by
/// line: blank lines, `# ` titles, tables of `|` rows (from a line that opens
/// with `| ` and closes with ` |` and is not the last), `- ` items,
/// `来源链接：` links, and other lines, muted when they tell a status or a time.
pub fn preview_blocks(preview: &str) -> (r: Vec<PreviewBlock>)
    ensures
        block_views(r@) == preview_block_views(preview@),
{
    let text = chars_of(preview);
    let ls = lines_exec(&text);
    let ghost lv = ls@.map_values(|w: Vec<char>| w@);
    assert(lv == lines(preview@));
    let mut out: Vec<PreviewBlock> = Vec::new();
    let mut i: usize = 0;
    while i < ls.len()
        invariant
            i <= ls.len(),
            lv == ls@.map_values(|w: Vec<char>| w@),
            lv == lines(preview@),
            block_views(out@) + blocks_from(lv, i as nat) == blocks_from(lv, 0),
        decreases ls.len() - i,
    {
        assert(lv[i as int] == ls@[i as int]@);
        let t = trim_exec(&ls[i]);
        let is_title = strip_prefix_exec(&t, &chars_of("# ")).is_some();
        let opens = t.len() > 0 && !is_title && starts_with_exec(&t, &chars_of("| "))
            && ends_with_exec(&t, &chars_of(" |")) && i + 1 < ls.len();
        let ghost before = block_views(out@);
        if opens {
            assert(opens_table(lv, i as int));
            let ghost tb = table_from(lv, i as nat);
            proof {
                reveal_strlit("|");
                reveal_strlit("| ");
                reveal_strlit(" |");
                let n = t@.len() as int;
                assert(t@.subrange(0, 2) == "| "@);
                assert(t@.subrange(0, 2)[0] == '|');
                assert(t@.subrange(0, 1) =~= "|"@);
                assert(t@.subrange(n - 2, n) == " |"@);
                assert(t@.subrange(n - 2, n)[1] == '|');
                assert(t@.subrange(n - 1, n) =~= "|"@);
                assert(is_table_row(t@));
                lemma_table_from_bounds(lv, i as nat);
            }
            let mut rows: Vec<Vec<String>> = Vec::new();
            let mut j = i;
            let mut stop = false;
            while j < ls.len() && !stop
                invariant
                    i <= j <= ls.len(),
                    lv == ls@.map_values(|w: Vec<char>| w@),
                    tb == table_from(lv, i as nat),
                    (rows_view(rows@) + table_from(lv, j as nat).0, table_from(lv, j as nat).1)
                        == tb,
                    stop ==> table_from(lv, j as nat) == (Seq::<Seq<Seq<char>>>::empty(), j as nat),
                decreases 2 * (ls.len() - j) + (if stop {
                    0int
                } else {
                    1int
                }),
            {
                assert(lv[j as int] == ls@[j as int]@);
                let row = trim_exec(&ls[j]);
                if !is_table_row_exec(&row) {
                    stop = true;
                } else {
                    if !is_rule_row_exec(&row) {
                        let ghost rb = rows_view(rows@);
                        rows.push(row_cells_exec(&row));
                        assert(rows_view(rows@) =~= rb.push(row_cells(row@)));
                        assert(rb + (seq![row_cells(row@)] + table_from(lv, (j + 1) as nat).0)
                            =~= rb.push(row_cells(row@)) + table_from(lv, (j + 1) as nat).0);
                    }
                    j = j + 1;
                }
            }
            proof {
                assert(table_from(lv, j as nat).0 =~= Seq::<Seq<Seq<char>>>::empty());
                assert(rows_view(rows@) =~= tb.0);
                assert(tb.1 == j);
            }
            let ghost rv = rows_view(rows@);
            out.push(PreviewBlock::Table(rows));
            assert(block_views(out@) =~= before.push(BlockView::Table(rv)));
            assert(before + (seq![BlockView::Table(tb.0)] + blocks_from(lv, j as nat)) =~= before.push(
                BlockView::Table(tb.0),
            ) + blocks_from(lv, j as nat));
            i = j;
        } else {
            assert(!opens_table(lv, i as int));
            let b = line_block_exec(&t);
            let ghost bv = b@;
            out.push(b);
            assert(block_views(out@) =~= before.push(bv));
            assert(before + (seq![bv] + blocks_from(lv, (i + 1) as nat)) =~= before.push(bv)
                + blocks_from(lv, (i + 1) as nat));
            i = i + 1;
        }
    }
    assert(block_views(out@) + Seq::<BlockView>::empty() =~= block_views(out@));
    out
}

} // verus!
