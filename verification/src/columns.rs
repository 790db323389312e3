//! The usage table's columns: which ones fit a given width, their headers and widths, and the
//! cells of a data row and of the total row.

use crate::theme::{tokens_style, Style};
use vstd::prelude::*;

verus! {

/// Which optional columns to display; the model, total and cost columns are always shown.
#[derive(Debug, Clone, Copy, PartialEq, Eq, Structural)]
pub struct ColumnSet {
    pub show_api: bool,
    pub show_client: bool,
    pub show_input: bool,
    pub show_output: bool,
}

/// A column of the usage table.
#[derive(Debug, Clone, Copy, PartialEq, Eq, Structural)]
pub enum Column {
    Model,
    Api,
    Client,
    Input,
    Output,
    Total,
    Cost,
}

/// How much room a column takes.
#[derive(Debug, Clone, Copy, PartialEq, Eq, Structural)]
pub enum ColumnWidth {
    /// At least this many cells, more when room is left.
    Min(u16),
    /// Exactly this many cells.
    Length(u16),
}

/// What a cell shows. Token counts and costs are formatted where the table is drawn.
#[derive(Debug)]
pub enum CellText {
    /// Plain text.
    Label(String),
    /// A token count.
    Tokens(u64),
    /// The row's cost in dollars.
    Cost,
}

/// How a cell is styled: with a fixed style, or by the size of the row's cost.
#[derive(Debug, Clone, Copy, PartialEq, Eq, Structural)]
pub enum CellStyle {
    Fixed(Style),
    ByCost,
}

/// One cell of the table.
#[derive(Debug)]
pub struct Cell {
    pub text: CellText,
    pub style: CellStyle,
}

/// The columns shown, in order: model, then API, client, input and output where shown, then
/// total and cost.
pub open spec fn shown_columns(cs: ColumnSet) -> Seq<Column> {
    seq![Column::Model] + (if cs.show_api {
        seq![Column::Api]
    } else {
        Seq::empty()
    }) + (if cs.show_client {
        seq![Column::Client]
    } else {
        Seq::empty()
    }) + (if cs.show_input {
        seq![Column::Input]
    } else {
        Seq::empty()
    }) + (if cs.show_output {
        seq![Column::Output]
    } else {
        Seq::empty()
    }) + seq![Column::Total, Column::Cost]
}

/// A column's header text.
pub open spec fn column_header(c: Column) -> Seq<char> {
    match c {
        Column::Model => "Model"@,
        Column::Api => "API"@,
        Column::Client => "Client"@,
        Column::Input => "Input"@,
        Column::Output => "Output"@,
        Column::Total => "Total"@,
        Column::Cost => "Cost"@,
    }
}

/// A column's width.
pub open spec fn column_width(c: Column) -> ColumnWidth {
    match c {
        Column::Model => ColumnWidth::Min(12),
        Column::Api => ColumnWidth::Length(12),
        Column::Client => ColumnWidth::Length(14),
        Column::Input => ColumnWidth::Length(8),
        Column::Output => ColumnWidth::Length(8),
        Column::Total => ColumnWidth::Length(8),
        Column::Cost => ColumnWidth::Length(10),
    }
}

/// The style of a number cell: by its value when colouring, the row's base style otherwise.
pub open spec fn number_style(n: u64, base: Style, use_color: bool) -> CellStyle {
    if use_color {
        CellStyle::Fixed(if n == 0 {
            Style::TextDim
        } else {
            Style::Text
        })
    } else {
        CellStyle::Fixed(base)
    }
}

/// The cell a data row shows in column `c`. The first three text arguments fill the model, API
/// and client columns.
pub open spec fn row_cell(
    cell: Cell,
    c: Column,
    col0: Seq<char>,
    col1: Seq<char>,
    col2: Seq<char>,
    input: u64,
    output: u64,
    total: u64,
    base: Style,
    use_color: bool,
) -> bool {
    match c {
        Column::Model => cell.text matches CellText::Label(s) && s@ == col0 && cell.style
            == CellStyle::Fixed(base),
        Column::Api => cell.text matches CellText::Label(s) && s@ == col1 && cell.style
            == CellStyle::Fixed(base),
        Column::Client => cell.text matches CellText::Label(s) && s@ == col2 && cell.style
            == CellStyle::Fixed(base),
        Column::Input => cell.text == CellText::Tokens(input) && cell.style == number_style(
            input,
            base,
            use_color,
        ),
        Column::Output => cell.text == CellText::Tokens(output) && cell.style == number_style(
            output,
            base,
            use_color,
        ),
        Column::Total => cell.text == CellText::Tokens(total) && cell.style == number_style(
            total,
            base,
            use_color,
        ),
        Column::Cost => cell.text == CellText::Cost && cell.style == (if use_color {
            CellStyle::ByCost
        } else {
            CellStyle::Fixed(base)
        }),
    }
}

/// The cell the total row shows in column `c`, all in the total-row style: "TOTAL" under the
/// model, nothing under the optional columns, then the token total and the cost.
pub open spec fn total_cell(cell: Cell, c: Column, total_tokens: u64) -> bool {
    &&& cell.style == CellStyle::Fixed(Style::TotalRow)
    &&& match c {
        Column::Model => cell.text matches CellText::Label(s) && s@ == "TOTAL"@,
        Column::Total => cell.text == CellText::Tokens(total_tokens),
        Column::Cost => cell.text == CellText::Cost,
        _ => cell.text matches CellText::Label(s) && s@.len() == 0,
    }
}

/// A label cell with a fixed style.
fn label_cell(text: &str, style: Style) -> (c: Cell)
    ensures
        c.text matches CellText::Label(s) && s@ == text@,
        c.style == CellStyle::Fixed(style),
{
    Cell { text: CellText::Label(text.to_string()), style: CellStyle::Fixed(style) }
}

/// A token-count cell, styled by its value when colouring.
fn tokens_cell(n: u64, base: Style, use_color: bool) -> (c: Cell)
    ensures
        c.text == CellText::Tokens(n),
        c.style == number_style(n, base, use_color),
{
    let style = if use_color {
        tokens_style(n)
    } else {
        base
    };
    Cell { text: CellText::Tokens(n), style: CellStyle::Fixed(style) }
}

impl ColumnSet {
    /// The header texts of the shown columns.
    pub fn headers(&self) -> (h: Vec<String>)
        ensures
            h@.len() == shown_columns(*self).len(),
            forall|i: int|
                0 <= i < h@.len() ==> (#[trigger] h@[i])@ == column_header(
                    shown_columns(*self)[i],
                ),
    {
        let ghost cols = shown_columns(*self);
        let mut h: Vec<String> = Vec::new();
        h.push("Model".to_string());
        if self.show_api {
            h.push("API".to_string());
        }
        if self.show_client {
            h.push("Client".to_string());
        }
        if self.show_input {
            h.push("Input".to_string());
        }
        if self.show_output {
            h.push("Output".to_string());
        }
        h.push("Total".to_string());
        h.push("Cost".to_string());
        proof {
            let hv = h@.map_values(|s: String| s@);
            assert(hv =~= cols.map_values(|c: Column| column_header(c)));
            assert forall|i: int| 0 <= i < h@.len() implies (#[trigger] h@[i])@ == column_header(
                cols[i],
            ) by {
                assert(hv[i] == h@[i]@);
            }
        }
        h
    }

    /// The widths of the shown columns.
    pub fn widths(&self) -> (w: Vec<ColumnWidth>)
        ensures
            w@ == shown_columns(*self).map_values(|c: Column| column_width(c)),
    {
        let mut w: Vec<ColumnWidth> = Vec::new();
        w.push(ColumnWidth::Min(12));
        if self.show_api {
            w.push(ColumnWidth::Length(12));
        }
        if self.show_client {
            w.push(ColumnWidth::Length(14));
        }
        if self.show_input {
            w.push(ColumnWidth::Length(8));
        }
        if self.show_output {
            w.push(ColumnWidth::Length(8));
        }
        w.push(ColumnWidth::Length(8));
        w.push(ColumnWidth::Length(10));
        assert(w@ =~= shown_columns(*self).map_values(|c: Column| column_width(c)));
        w
    }

    /// The shown columns, in order.
    pub fn columns(&self) -> (cols: Vec<Column>)
        ensures
            cols@ == shown_columns(*self),
    {
        let mut cols: Vec<Column> = Vec::new();
        cols.push(Column::Model);
        if self.show_api {
            cols.push(Column::Api);
        }
        if self.show_client {
            cols.push(Column::Client);
        }
        if self.show_input {
            cols.push(Column::Input);
        }
        if self.show_output {
            cols.push(Column::Output);
        }
        cols.push(Column::Total);
        cols.push(Column::Cost);
        assert(cols@ =~= shown_columns(*self));
        cols
    }

    /// The cells of a data row, one per shown column.
    pub fn build_row(
        &self,
        col0: &str,
        col1: &str,
        col2: &str,
        input: u64,
        output: u64,
        total: u64,
        base_style: Style,
        use_color: bool,
    ) -> (cells: Vec<Cell>)
        ensures
            cells@.len() == shown_columns(*self).len(),
            forall|i: int|
                0 <= i < cells@.len() ==> row_cell(
                    #[trigger] cells@[i],
                    shown_columns(*self)[i],
                    col0@,
                    col1@,
                    col2@,
                    input,
                    output,
                    total,
                    base_style,
                    use_color,
                ),
    {
        let cols = self.columns();
        let mut cells: Vec<Cell> = Vec::new();
        let mut i: usize = 0;
        while i < cols.len()
            invariant
                i <= cols@.len(),
                cols@ == shown_columns(*self),
                cells@.len() == i,
                forall|k: int|
                    0 <= k < i ==> row_cell(
                        #[trigger] cells@[k],
                        cols@[k],
                        col0@,
                        col1@,
                        col2@,
                        input,
                        output,
                        total,
                        base_style,
                        use_color,
                    ),
            decreases cols@.len() - i,
        {
            let cell = row_cell_for(
                cols[i],
                col0,
                col1,
                col2,
                input,
                output,
                total,
                base_style,
                use_color,
            );
            cells.push(cell);
            i = i + 1;
        }
        cells
    }

    /// The cells of the total row, one per shown column.
    pub fn build_total_row(&self, total_tokens: u64) -> (cells: Vec<Cell>)
        ensures
            cells@.len() == shown_columns(*self).len(),
            forall|i: int|
                0 <= i < cells@.len() ==> total_cell(
                    #[trigger] cells@[i],
                    shown_columns(*self)[i],
                    total_tokens,
                ),
    {
        let cols = self.columns();
        let mut cells: Vec<Cell> = Vec::new();
        let mut i: usize = 0;
        while i < cols.len()
            invariant
                i <= cols@.len(),
                cols@ == shown_columns(*self),
                cells@.len() == i,
                forall|k: int|
                    0 <= k < i ==> total_cell(#[trigger] cells@[k], cols@[k], total_tokens),
            decreases cols@.len() - i,
        {
            cells.push(total_cell_for(cols[i], total_tokens));
            i = i + 1;
        }
        cells
    }
}

/// The cell a data row shows in column `c`.
fn row_cell_for(
    c: Column,
    col0: &str,
    col1: &str,
    col2: &str,
    input: u64,
    output: u64,
    total: u64,
    base_style: Style,
    use_color: bool,
) -> (cell: Cell)
    ensures
        row_cell(cell, c, col0@, col1@, col2@, input, output, total, base_style, use_color),
{
    match c {
        Column::Model => label_cell(col0, base_style),
        Column::Api => label_cell(col1, base_style),
        Column::Client => label_cell(col2, base_style),
        Column::Input => tokens_cell(input, base_style, use_color),
        Column::Output => tokens_cell(output, base_style, use_color),
        Column::Total => tokens_cell(total, base_style, use_color),
        Column::Cost => {
            let style = if use_color {
                CellStyle::ByCost
            } else {
                CellStyle::Fixed(base_style)
            };
            Cell { text: CellText::Cost, style }
        },
    }
}

/// The cell the total row shows in column `c`.
fn total_cell_for(c: Column, total_tokens: u64) -> (cell: Cell)
    ensures
        total_cell(cell, c, total_tokens),
{
    let style = Style::TotalRow;
    proof {
        reveal_strlit("");
    }
    match c {
        Column::Model => label_cell("TOTAL", style),
        Column::Total => Cell { text: CellText::Tokens(total_tokens), style: CellStyle::Fixed(style) },
        Column::Cost => Cell { text: CellText::Cost, style: CellStyle::Fixed(style) },
        _ => label_cell("", style),
    }
}

/// The columns for a table of `width` cells: all of them from 80 on; no client column from 65;
/// no API column either from 50; below 50 only model, total and cost.
pub open spec fn columns_for(width: int) -> ColumnSet {
    if width >= 80 {
        ColumnSet { show_api: true, show_client: true, show_input: true, show_output: true }
    } else if width >= 65 {
        ColumnSet { show_api: true, show_client: false, show_input: true, show_output: true }
    } else if width >= 50 {
        ColumnSet { show_api: false, show_client: false, show_input: true, show_output: true }
    } else {
        ColumnSet { show_api: false, show_client: false, show_input: false, show_output: false }
    }
}

/// Chooses the columns that fit a table `width` cells wide.
pub fn choose_columns(width: usize) -> (cs: ColumnSet)
    ensures
        cs == columns_for(width as int),
{
    if width >= 80 {
        ColumnSet { show_api: true, show_client: true, show_input: true, show_output: true }
    } else if width >= 65 {
        ColumnSet { show_api: true, show_client: false, show_input: true, show_output: true }
    } else if width >= 50 {
        ColumnSet { show_api: false, show_client: false, show_input: true, show_output: true }
    } else {
        ColumnSet { show_api: false, show_client: false, show_input: false, show_output: false }
    }
}

/// A wider table never shows fewer columns.
pub proof fn law_wider_shows_more(narrow: int, wide: int)
    requires
        narrow <= wide,
    ensures
        columns_for(narrow).show_api ==> columns_for(wide).show_api,
        columns_for(narrow).show_client ==> columns_for(wide).show_client,
        columns_for(narrow).show_input ==> columns_for(wide).show_input,
        columns_for(narrow).show_output ==> columns_for(wide).show_output,
{
}

/// Every row of the table has one cell per header and one width per header: the header, the
/// widths, the data rows and the total row all follow the shown columns, which always start
/// with the model and end with the total and the cost.
pub proof fn law_table_shape(cs: ColumnSet)
    ensures
        shown_columns(cs).map_values(|c: Column| column_width(c)).len() == shown_columns(cs).len(),
        3 <= shown_columns(cs).len() <= 7,
        shown_columns(cs)[0] == Column::Model,
        shown_columns(cs).last() == Column::Cost,
        shown_columns(cs)[shown_columns(cs).len() - 2] == Column::Total,
{
}

/// A data row shows its three texts in the first three cells, in order: the model text under
/// Model, the API text under API and the client text under Client, whenever both optional
/// label columns are shown.
pub proof fn law_row_labels_in_order(
    cs: ColumnSet,
    cells: Seq<Cell>,
    col0: Seq<char>,
    col1: Seq<char>,
    col2: Seq<char>,
    input: u64,
    output: u64,
    total: u64,
    base: Style,
    use_color: bool,
)
    requires
        cs.show_api,
        cs.show_client,
        cells.len() == shown_columns(cs).len(),
        forall|i: int|
            0 <= i < cells.len() ==> row_cell(
                #[trigger] cells[i],
                shown_columns(cs)[i],
                col0,
                col1,
                col2,
                input,
                output,
                total,
                base,
                use_color,
            ),
    ensures
        cells[0].text matches CellText::Label(s) && s@ == col0,
        cells[1].text matches CellText::Label(s) && s@ == col1,
        cells[2].text matches CellText::Label(s) && s@ == col2,
{
    let cols = shown_columns(cs);
    assert(cols[0] == Column::Model);
    assert(cols[1] == Column::Api);
    assert(cols[2] == Column::Client);
    assert(row_cell(cells[0], cols[0], col0, col1, col2, input, output, total, base, use_color));
    assert(row_cell(cells[1], cols[1], col0, col1, col2, input, output, total, base, use_color));
    assert(row_cell(cells[2], cols[2], col0, col1, col2, input, output, total, base, use_color));
}

/// With every optional column shown, a data row reads, in order: the model, API and client
/// texts, the input, output and total token counts, and the cost.
pub proof fn law_full_row_in_order(
    cs: ColumnSet,
    cells: Seq<Cell>,
    col0: Seq<char>,
    col1: Seq<char>,
    col2: Seq<char>,
    input: u64,
    output: u64,
    total: u64,
    base: Style,
    use_color: bool,
)
    requires
        cs.show_api,
        cs.show_client,
        cs.show_input,
        cs.show_output,
        cells.len() == shown_columns(cs).len(),
        forall|i: int|
            0 <= i < cells.len() ==> row_cell(
                #[trigger] cells[i],
                shown_columns(cs)[i],
                col0,
                col1,
                col2,
                input,
                output,
                total,
                base,
                use_color,
            ),
    ensures
        cells.len() == 7,
        cells[0].text matches CellText::Label(s) && s@ == col0,
        cells[1].text matches CellText::Label(s) && s@ == col1,
        cells[2].text matches CellText::Label(s) && s@ == col2,
        cells[3].text == CellText::Tokens(input),
        cells[4].text == CellText::Tokens(output),
        cells[5].text == CellText::Tokens(total),
        cells[6].text == CellText::Cost,
{
    let cols = shown_columns(cs);
    assert(cols =~= seq![
        Column::Model,
        Column::Api,
        Column::Client,
        Column::Input,
        Column::Output,
        Column::Total,
        Column::Cost,
    ]);
    assert(row_cell(cells[0], cols[0], col0, col1, col2, input, output, total, base, use_color));
    assert(row_cell(cells[1], cols[1], col0, col1, col2, input, output, total, base, use_color));
    assert(row_cell(cells[2], cols[2], col0, col1, col2, input, output, total, base, use_color));
    assert(row_cell(cells[3], cols[3], col0, col1, col2, input, output, total, base, use_color));
    assert(row_cell(cells[4], cols[4], col0, col1, col2, input, output, total, base, use_color));
    assert(row_cell(cells[5], cols[5], col0, col1, col2, input, output, total, base, use_color));
    assert(row_cell(cells[6], cols[6], col0, col1, col2, input, output, total, base, use_color));
}

} // verus!
