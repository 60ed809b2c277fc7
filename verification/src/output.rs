//! The ACF and BCF plain-text result tables.
//!
//! A table collects rows of already formatted cells, keeps every column
//! wide enough for its widest cell, and renders a header, `-`/`+` ruled
//! separators and a footer of totals.  The caller formats the numeric
//! values; everything here is exact string layout and is specified
//! character by character.

use vstd::prelude::*;
use vstd::seq_lib::lemma_concat_associative;
use vstd::string::StringExecFns;
use vstd::utf8::is_ascii_chars;

use crate::text::ascii_len;
use crate::text::lemma_decimal_is_ascii;
use crate::text::lemma_decimal_len_bounded;
use crate::text::push_center;
use crate::text::push_pad_left;
use crate::text::push_repeat;
use crate::text::repeated;
use crate::text::spec_center;
use crate::text::spec_decimal;
use crate::text::spec_pad_left;
use crate::text::usize_to_string;

verus! {

/// Which of the two result tables is being built.
#[derive(Clone, Copy, PartialEq, Eq, Structural, Debug)]
pub enum TableType {
    /// The per-atom table (the ACF file).
    AtomsCharge,
    /// The per-basin table grouped by atom (the BCF file).
    BaderCharge,
}

/// Number of columns of a table for `density_num` densities: index,
/// three coordinates, charge, up to three spin columns, volume, distance.
pub open spec fn spec_n_columns(density_num: int) -> int {
    if density_num > 2 {
        10
    } else if density_num == 2 {
        8
    } else {
        7
    }
}

/// The minimum column widths a fresh table starts from.
pub open spec fn initial_widths(density_num: int) -> Seq<usize> {
    if density_num > 2 {
        seq![1usize, 1, 1, 1, 6, 6, 6, 6, 6, 8]
    } else if density_num == 2 {
        seq![1usize, 1, 1, 1, 6, 6, 6, 8]
    } else {
        seq![1usize, 1, 1, 1, 6, 6, 8]
    }
}

/// The separator indices a fresh table starts from.
pub open spec fn initial_separators(table_type: TableType) -> Seq<usize> {
    match table_type {
        TableType::AtomsCharge => seq![0usize, 0],
        TableType::BaderCharge => Seq::empty(),
    }
}

/// Structure that contains and builds a result table.
pub struct Table {
    /// How wide each column is.
    pub column_width: Vec<usize>,
    /// The number of charge and spin densities.
    pub density_num: usize,
    /// The rows of the table; an empty row stands for a separator.
    pub rows: Vec<Vec<String>>,
    /// The label printed in each separator, consumed in order.
    pub separators: Vec<usize>,
    /// What type of table the structure is.
    pub table_type: TableType,
}

impl Table {
    /// The shape every table keeps: the column count fits the number of
    /// densities, widths stay clear of the address-space limit, and every
    /// row is either a separator marker or a full row of ASCII cells.
    pub open spec fn wf(&self) -> bool {
        &&& self.column_width@.len() == spec_n_columns(self.density_num as int)
        &&& forall|i: int|
            0 <= i < self.column_width@.len() ==> 1 <= #[trigger] self.column_width@[i]
                <= usize::MAX - 3
        &&& forall|r: int|
            0 <= r < self.rows@.len() ==> {
                let row = (#[trigger] self.rows@[r])@;
                &&& (row.len() == 0 || row.len() == 6 + self.density_num)
                &&& row.len() <= self.column_width@.len()
                &&& forall|c: int| 0 <= c < row.len() ==> is_ascii_chars((#[trigger] row[c])@)
            }
    }

    /// Creates a new table and sets the minimum widths of each column.
    pub fn new(table_type: TableType, density_num: usize) -> (t: Table)
        ensures
            t.table_type == table_type,
            t.density_num == density_num,
            t.column_width@ == initial_widths(density_num as int),
            t.rows@.len() == 1 && t.rows@[0]@.len() == 0,
            t.separators@ == initial_separators(table_type),
            t.wf(),
    {
        let mut rows: Vec<Vec<String>> = Vec::new();
        rows.push(Vec::new());
        let mut column_width: Vec<usize> = Vec::new();
        column_width.push(1);
        column_width.push(1);
        column_width.push(1);
        column_width.push(1);
        column_width.push(6);
        if density_num > 2 {
            column_width.push(6);
            column_width.push(6);
            column_width.push(6);
        } else if density_num == 2 {
            column_width.push(6);
        }
        column_width.push(6);
        column_width.push(8);
        proof {
            assert(column_width@ =~= initial_widths(density_num as int));
        }
        let mut separators: Vec<usize> = Vec::new();
        match table_type {
            TableType::AtomsCharge => {
                separators.push(0);
                separators.push(0);
            },
            TableType::BaderCharge => {},
        }
        proof {
            assert(separators@ =~= initial_separators(table_type));
        }
        Table { column_width, density_num, rows, separators, table_type }
    }

    /// Adds a blank row to become a separator in the final string, and
    /// records the label to print in it.
    pub fn add_separator(&mut self, index: usize)
        ensures
            final(self).rows@.len() == old(self).rows@.len() + 1,
            final(self).rows@.drop_last() == old(self).rows@,
            final(self).rows@.last()@.len() == 0,
            final(self).separators@ == old(self).separators@.push(index),
            final(self).column_width == old(self).column_width,
            final(self).density_num == old(self).density_num,
            final(self).table_type == old(self).table_type,
            old(self).wf() ==> final(self).wf(),
    {
        self.rows.push(Vec::new());
        self.separators.push(index);
        proof {
            assert(self.rows@.drop_last() =~= old(self).rows@);
        }
    }

    /// Adds a row to the table: the one-based (or basin) index, the three
    /// formatted coordinates, one formatted value per density, the
    /// formatted volume and distance.  Every column grows to fit its
    /// widest cell.
    #[verifier::loop_isolation(false)]
    pub fn add_row(
        &mut self,
        index: usize,
        p: (String, String, String),
        density: &Vec<String>,
        volume: String,
        distance: String,
    )
        requires
            old(self).wf(),
            density@.len() == old(self).density_num,
            6 + old(self).density_num <= old(self).column_width@.len(),
            is_ascii_chars(p.0@) && p.0@.len() <= usize::MAX - 3,
            is_ascii_chars(p.1@) && p.1@.len() <= usize::MAX - 3,
            is_ascii_chars(p.2@) && p.2@.len() <= usize::MAX - 3,
            forall|d: int|
                0 <= d < density@.len() ==> is_ascii_chars((#[trigger] density@[d])@)
                    && density@[d]@.len() <= usize::MAX - 3,
            is_ascii_chars(volume@) && volume@.len() <= usize::MAX - 3,
            is_ascii_chars(distance@) && distance@.len() <= usize::MAX - 3,
        ensures
            final(self).rows@.len() == old(self).rows@.len() + 1,
            final(self).rows@.drop_last() == old(self).rows@,
            ({
                let row = final(self).rows@.last()@;
                &&& row.len() == 6 + old(self).density_num
                &&& row[0]@ == spec_decimal(index as nat)
                &&& row[1]@ == p.0@
                &&& row[2]@ == p.1@
                &&& row[3]@ == p.2@
                &&& forall|d: int| 0 <= d < density@.len() ==> (#[trigger] row[4 + d])@ == density@[d]@
                &&& row[4 + density@.len() as int]@ == volume@
                &&& row[5 + density@.len() as int]@ == distance@
            }),
            ({
                let row = final(self).rows@.last()@;
                &&& forall|i: int|
                    0 <= i < row.len() ==> #[trigger] final(self).column_width@[i] == if old(
                        self,
                    ).column_width@[i] >= row[i]@.len() {
                        old(self).column_width@[i]
                    } else {
                        row[i]@.len() as usize
                    }
                &&& forall|i: int|
                    row.len() <= i < old(self).column_width@.len()
                        ==> #[trigger] final(self).column_width@[i] == old(self).column_width@[i]
            }),
            final(self).column_width@.len() == old(self).column_width@.len(),
            final(self).separators == old(self).separators,
            final(self).density_num == old(self).density_num,
            final(self).table_type == old(self).table_type,
            final(self).wf(),
    {
        let dn: usize = self.density_num;
        let mut row: Vec<String> = Vec::new();
        row.push(usize_to_string(index));
        row.push(p.0);
        row.push(p.1);
        row.push(p.2);
        let mut d: usize = 0;
        while d < dn
            invariant
                dn == density@.len(),
                d <= dn,
                row@.len() == 4 + d,
                row@[0]@ == spec_decimal(index as nat),
                row@[1]@ == p.0@,
                row@[2]@ == p.1@,
                row@[3]@ == p.2@,
                forall|q: int| 0 <= q < d ==> (#[trigger] row@[4 + q])@ == density@[q]@,
                forall|d2: int|
                    0 <= d2 < density@.len() ==> is_ascii_chars((#[trigger] density@[d2])@)
                        && density@[d2]@.len() <= usize::MAX - 3,
            decreases dn - d,
        {
            row.push(density[d].clone());
            d = d + 1;
        }
        row.push(volume);
        row.push(distance);
        proof {
            lemma_decimal_is_ascii(index as nat);
            lemma_decimal_len_bounded(index as nat);
            assert forall|c: int| 0 <= c < row@.len() implies is_ascii_chars(
                (#[trigger] row@[c])@,
            ) && row@[c]@.len() <= usize::MAX - 3 by {
                if 4 <= c < 4 + density@.len() {
                    assert(row@[4 + (c - 4)]@ == density@[c - 4]@);
                }
            }
        }
        let n_cells: usize = row.len();
        let mut i: usize = 0;
        while i < n_cells
            invariant
                n_cells == row@.len(),
                row@.len() <= self.column_width@.len(),
                i <= n_cells,
                forall|c: int| 0 <= c < row@.len() ==> is_ascii_chars((#[trigger] row@[c])@),
                forall|c: int| 0 <= c < row@.len() ==> (#[trigger] row@[c])@.len() <= usize::MAX - 3,
                self.column_width@.len() == old(self).column_width@.len(),
                forall|q: int|
                    0 <= q < i ==> #[trigger] self.column_width@[q] == if old(
                        self,
                    ).column_width@[q] >= row@[q]@.len() {
                        old(self).column_width@[q]
                    } else {
                        row@[q]@.len() as usize
                    },
                forall|q: int|
                    i <= q < old(self).column_width@.len() ==> #[trigger] self.column_width@[q]
                        == old(self).column_width@[q],
                self.rows == old(self).rows,
                self.separators == old(self).separators,
                self.density_num == old(self).density_num,
                self.table_type == old(self).table_type,
            decreases n_cells - i,
        {
            let cell_len: usize = ascii_len(row[i].as_str());
            if cell_len > self.column_width[i] {
                self.column_width.set(i, cell_len);
            }
            i = i + 1;
        }
        self.rows.push(row);
        proof {
            assert(self.rows@.drop_last() =~= old(self).rows@);
        }
    }
}

/// The ruling of the columns `from .. upto`, joined by `+`: each column
/// contributes two more dashes than it is wide, and the line stops two
/// characters short after the final column (its join is cut off).
pub open spec fn sep_cells(widths: Seq<usize>, from: int, upto: int) -> Seq<char>
    decreases upto - from,
{
    if upto <= from {
        Seq::empty()
    } else if upto == widths.len() {
        sep_cells(widths, from, upto - 1) + repeated('-', widths[upto - 1] + 1)
    } else {
        sep_cells(widths, from, upto - 1) + repeated('-', widths[upto - 1] + 2) + seq!['+']
    }
}

/// The separator line of a table.  The ACF table rules every column; the
/// BCF table replaces the opening of the line with `Atom: ` and the
/// right-aligned atom label, resuming the plain ruling at the character
/// after position `widths[0] + 6`.
pub open spec fn spec_separator(widths: Seq<usize>, table_type: TableType, label: nat) -> Seq<
    char,
> {
    match table_type {
        TableType::AtomsCharge => sep_cells(widths, 0, widths.len() as int),
        TableType::BaderCharge => seq!['-'] + "Atom: "@ + spec_pad_left(
            spec_decimal(label),
            widths[0] as int,
        ) + atom_sep_tail(widths),
    }
}

/// What is left of the second column's ruling after the atom label, then
/// the plain ruling of the remaining columns.
pub open spec fn atom_sep_tail(widths: Seq<usize>) -> Seq<char> {
    if widths[1] >= 2 {
        repeated('-', widths[1] - 2) + seq!['+'] + sep_cells(widths, 2, widths.len() as int)
    } else {
        sep_cells(widths, 2, widths.len() as int)
    }
}

/// The heading of column `c` of a table for `density_num` densities.
pub open spec fn header_label(c: int, density_num: int) -> Seq<char> {
    if c == 0 {
        "#"@
    } else if c == 1 {
        "X"@
    } else if c == 2 {
        "Y"@
    } else if c == 3 {
        "Z"@
    } else if c == 4 {
        "Charge"@
    } else if c == spec_n_columns(density_num) - 2 {
        "Volume"@
    } else if c == spec_n_columns(density_num) - 1 {
        "Distance"@
    } else if density_num == 2 {
        "Spin"@
    } else if c == 5 {
        "Spin X"@
    } else if c == 6 {
        "Spin Y"@
    } else {
        "Spin Z"@
    }
}

/// The header cells of columns `0 .. upto`: each heading centred in its
/// column between ` ` and ` |`, the last column closed by a newline
/// instead of the ` |`.
pub open spec fn header_cells(widths: Seq<usize>, density_num: int, upto: int) -> Seq<char>
    decreases upto,
{
    if upto <= 0 {
        Seq::empty()
    } else if upto == widths.len() {
        header_cells(widths, density_num, upto - 1) + seq![' '] + spec_center(
            header_label(upto - 1, density_num),
            widths[upto - 1] as int,
        ) + seq!['\n']
    } else {
        header_cells(widths, density_num, upto - 1) + seq![' '] + spec_center(
            header_label(upto - 1, density_num),
            widths[upto - 1] as int,
        ) + seq![' ', '|']
    }
}

/// The header line of a table.
pub open spec fn spec_header(widths: Seq<usize>, density_num: int) -> Seq<char> {
    header_cells(widths, density_num, widths.len() as int)
}

impl Table {
    /// Creates and formats a separator.
    #[verifier::loop_isolation(false)]
    pub fn format_separator(&self, i: usize) -> (s: String)
        requires
            self.wf(),
        ensures
            s@ == spec_separator(self.column_width@, self.table_type, i as nat),
    {
        proof {
            reveal_strlit("-");
            reveal_strlit("+");
        }
        match self.table_type {
            TableType::AtomsCharge => self.sep_cells_string(0),
            TableType::BaderCharge => {
                proof {
                    lemma_decimal_is_ascii(i as nat);
                }
                let mut out = String::new();
                out.append("-");
                out.append("Atom: ");
                let label = usize_to_string(i);
                push_pad_left(&mut out, label.as_str(), self.column_width[0]);
                let w1: usize = self.column_width[1];
                if w1 >= 2 {
                    push_repeat(&mut out, "-", w1 - 2);
                    out.append("+");
                }
                let tail = self.sep_cells_string(2);
                out.append(tail.as_str());
                proof {
                    assert(out@ =~= spec_separator(self.column_width@, self.table_type, i as nat));
                }
                out
            },
        }
    }

    /// The ruling of columns `from` onwards.
    #[verifier::loop_isolation(false)]
    fn sep_cells_string(&self, from: usize) -> (s: String)
        requires
            self.wf(),
            from <= self.column_width@.len(),
        ensures
            s@ == sep_cells(self.column_width@, from as int, self.column_width@.len() as int),
    {
        proof {
            reveal_strlit("-");
            reveal_strlit("+");
        }
        let n: usize = self.column_width.len();
        let mut out = String::new();
        let mut c: usize = from;
        proof {
            assert(out@ =~= sep_cells(self.column_width@, from as int, from as int));
        }
        while c < n
            invariant
                c <= n,
                from <= c,
                out@ == sep_cells(self.column_width@, from as int, c as int),
            decreases n - c,
        {
            let w: usize = self.column_width[c];
            if c + 1 == n {
                push_repeat(&mut out, "-", w + 1);
                proof {
                    assert(out@ =~= sep_cells(self.column_width@, from as int, c + 1));
                }
            } else {
                push_repeat(&mut out, "-", w + 2);
                out.append("+");
                proof {
                    assert("+"@ =~= seq!['+']);
                    assert(out@ =~= sep_cells(self.column_width@, from as int, c + 1));
                }
            }
            c = c + 1;
        }
        out
    }

    /// Creates and formats the header.
    #[verifier::loop_isolation(false)]
    pub fn format_header(&self) -> (s: String)
        requires
            self.wf(),
        ensures
            s@ == spec_header(self.column_width@, self.density_num as int),
    {
        proof {
            reveal_strlit(" ");
            reveal_strlit("\n");
        }
        let n: usize = self.column_width.len();
        let mut out = String::new();
        let mut c: usize = 0;
        proof {
            assert(out@ =~= header_cells(self.column_width@, self.density_num as int, 0));
        }
        while c < n
            invariant
                c <= n,
                out@ == header_cells(self.column_width@, self.density_num as int, c as int),
            decreases n - c,
        {
            let label: &'static str = header_label_str(c, self.density_num);
            out.append(" ");
            push_center(&mut out, label, self.column_width[c]);
            if c + 1 == n {
                out.append("\n");
                proof {
                    assert(" "@ =~= seq![' ']);
                    assert("\n"@ =~= seq!['\n']);
                    assert(out@ =~= header_cells(
                        self.column_width@,
                        self.density_num as int,
                        c + 1,
                    ));
                }
            } else {
                out.append(" |");
                proof {
                    reveal_strlit(" |");
                    assert(" "@ =~= seq![' ']);
                    assert(" |"@ =~= seq![' ', '|']);
                    assert(out@ =~= header_cells(
                        self.column_width@,
                        self.density_num as int,
                        c + 1,
                    ));
                }
            }
            c = c + 1;
        }
        out
    }
}

/// The total lines under the ACF table: vacuum and partitioned charge,
/// spin (one or three components, when present) and volume, each
/// right-aligned after its label.
pub open spec fn footer_lines(
    density_num: int,
    vd: Seq<String>,
    vv: Seq<char>,
    pd: Seq<String>,
    pv: Seq<char>,
) -> Seq<char> {
    if density_num < 2 {
        "\n  Vacuum Charge: "@ + spec_pad_left(vd[0]@, 18) + "\n  Vacuum Volume: "@
            + spec_pad_left(vv, 18) + "\n  Partitioned Charge: "@ + spec_pad_left(pd[0]@, 13)
            + "\n  Partitioned Volume: "@ + spec_pad_left(pv, 13)
    } else if density_num == 2 {
        "\n  Vacuum Charge: "@ + spec_pad_left(vd[0]@, 18) + "\n  Vacuum Spin: "@
            + spec_pad_left(vd[1]@, 20) + "\n  Vacuum Volume: "@ + spec_pad_left(vv, 18)
            + "\n  Partitioned Charge: "@ + spec_pad_left(pd[0]@, 13)
            + "\n  Partitioned Spin: "@ + spec_pad_left(pd[1]@, 15)
            + "\n  Partitioned Volume: "@ + spec_pad_left(pv, 13)
    } else {
        "\n  Vacuum Charge: "@ + spec_pad_left(vd[0]@, 18) + "\n  Vacuum Spin X: "@
            + spec_pad_left(vd[1]@, 18) + "\n  Vacuum Spin Y: "@ + spec_pad_left(vd[2]@, 18)
            + "\n  Vacuum Spin Z: "@ + spec_pad_left(vd[3]@, 18) + "\n  Vacuum Volume: "@
            + spec_pad_left(vv, 18) + "\n  Partitioned Charge: "@ + spec_pad_left(pd[0]@, 13)
            + "\n  Partitioned Spin X: "@ + spec_pad_left(pd[1]@, 13)
            + "\n  Partitioned Spin Y: "@ + spec_pad_left(pd[2]@, 13)
            + "\n  Partitioned Spin Z: "@ + spec_pad_left(pd[3]@, 13)
            + "\n  Partitioned Volume: "@ + spec_pad_left(pv, 13)
    }
}

/// The footer of a table: the ACF table closes with a plain separator and
/// the totals; the BCF table has no footer.
pub open spec fn spec_footer(
    widths: Seq<usize>,
    table_type: TableType,
    density_num: int,
    vd: Seq<String>,
    vv: Seq<char>,
    pd: Seq<String>,
    pv: Seq<char>,
) -> Seq<char> {
    match table_type {
        TableType::AtomsCharge => spec_separator(widths, table_type, 0) + footer_lines(
            density_num,
            vd,
            vv,
            pd,
            pv,
        ),
        TableType::BaderCharge => Seq::empty(),
    }
}

/// The densities a footer reads: one for the charge alone, two with a
/// collinear spin, four with a three-component spin.
pub open spec fn footer_values_ok(density_num: int, vd: Seq<String>, pd: Seq<String>) -> bool {
    &&& (density_num < 2 ==> vd.len() >= 1 && pd.len() >= 1)
    &&& (density_num == 2 ==> vd.len() >= 2 && pd.len() >= 2)
    &&& (density_num > 2 ==> vd.len() >= 4 && pd.len() >= 4)
    &&& forall|d: int| 0 <= d < vd.len() ==> is_ascii_chars((#[trigger] vd[d])@)
    &&& forall|d: int| 0 <= d < pd.len() ==> is_ascii_chars((#[trigger] pd[d])@)
}

impl Table {
    /// Creates and formats the footer.
    #[verifier::rlimit(100)]
    #[verifier::spinoff_prover]
    pub fn format_footer(
        &self,
        vacuum_density: &Vec<String>,
        vacuum_volume: &str,
        partitioned_density: &Vec<String>,
        partitioned_volume: &str,
    ) -> (s: String)
        requires
            self.wf(),
            self.table_type is AtomsCharge ==> footer_values_ok(
                self.density_num as int,
                vacuum_density@,
                partitioned_density@,
            ),
            is_ascii_chars(vacuum_volume@),
            is_ascii_chars(partitioned_volume@),
        ensures
            s@ == spec_footer(
                self.column_width@,
                self.table_type,
                self.density_num as int,
                vacuum_density@,
                vacuum_volume@,
                partitioned_density@,
                partitioned_volume@,
            ),
    {
        match self.table_type {
            TableType::BaderCharge => {
                let out = String::new();
                proof {
                    assert(out@ =~= Seq::<char>::empty());
                }
                out
            },
            TableType::AtomsCharge => {
                let mut out = self.format_separator(0);
                let ghost sep = out@;
                let ghost mut acc: Seq<char> = Seq::empty();
                if self.density_num == 2 {
                    out.append("\n  Vacuum Charge: ");
                    proof { acc = "\n  Vacuum Charge: "@; }
                    push_pad_left(&mut out, vacuum_density[0].as_str(), 18);
                    proof {
                        lemma_concat_associative(sep, acc, spec_pad_left(vacuum_density@[0]@, 18));
                        acc = acc + spec_pad_left(vacuum_density@[0]@, 18);
                    }
                    out.append("\n  Vacuum Spin: ");
                    proof {
                        lemma_concat_associative(sep, acc, "\n  Vacuum Spin: "@);
                        acc = acc + "\n  Vacuum Spin: "@;
                    }
                    push_pad_left(&mut out, vacuum_density[1].as_str(), 20);
                    proof {
                        lemma_concat_associative(sep, acc, spec_pad_left(vacuum_density@[1]@, 20));
                        acc = acc + spec_pad_left(vacuum_density@[1]@, 20);
                    }
                    out.append("\n  Vacuum Volume: ");
                    proof {
                        lemma_concat_associative(sep, acc, "\n  Vacuum Volume: "@);
                        acc = acc + "\n  Vacuum Volume: "@;
                    }
                    push_pad_left(&mut out, vacuum_volume, 18);
                    proof {
                        lemma_concat_associative(sep, acc, spec_pad_left(vacuum_volume@, 18));
                        acc = acc + spec_pad_left(vacuum_volume@, 18);
                    }
                    out.append("\n  Partitioned Charge: ");
                    proof {
                        lemma_concat_associative(sep, acc, "\n  Partitioned Charge: "@);
                        acc = acc + "\n  Partitioned Charge: "@;
                    }
                    push_pad_left(&mut out, partitioned_density[0].as_str(), 13);
                    proof {
                        lemma_concat_associative(sep, acc, spec_pad_left(partitioned_density@[0]@, 13));
                        acc = acc + spec_pad_left(partitioned_density@[0]@, 13);
                    }
                    out.append("\n  Partitioned Spin: ");
                    proof {
                        lemma_concat_associative(sep, acc, "\n  Partitioned Spin: "@);
                        acc = acc + "\n  Partitioned Spin: "@;
                    }
                    push_pad_left(&mut out, partitioned_density[1].as_str(), 15);
                    proof {
                        lemma_concat_associative(sep, acc, spec_pad_left(partitioned_density@[1]@, 15));
                        acc = acc + spec_pad_left(partitioned_density@[1]@, 15);
                    }
                    out.append("\n  Partitioned Volume: ");
                    proof {
                        lemma_concat_associative(sep, acc, "\n  Partitioned Volume: "@);
                        acc = acc + "\n  Partitioned Volume: "@;
                    }
                    push_pad_left(&mut out, partitioned_volume, 13);
                    proof {
                        lemma_concat_associative(sep, acc, spec_pad_left(partitioned_volume@, 13));
                        acc = acc + spec_pad_left(partitioned_volume@, 13);
                    }
                    proof {
                        assert(acc == footer_lines(
                            self.density_num as int,
                            vacuum_density@,
                            vacuum_volume@,
                            partitioned_density@,
                            partitioned_volume@,
                        ));
                    }
                } else if self.density_num > 2 {
                    out.append("\n  Vacuum Charge: ");
                    proof { acc = "\n  Vacuum Charge: "@; }
                    push_pad_left(&mut out, vacuum_density[0].as_str(), 18);
                    proof {
                        lemma_concat_associative(sep, acc, spec_pad_left(vacuum_density@[0]@, 18));
                        acc = acc + spec_pad_left(vacuum_density@[0]@, 18);
                    }
                    out.append("\n  Vacuum Spin X: ");
                    proof {
                        lemma_concat_associative(sep, acc, "\n  Vacuum Spin X: "@);
                        acc = acc + "\n  Vacuum Spin X: "@;
                    }
                    push_pad_left(&mut out, vacuum_density[1].as_str(), 18);
                    proof {
                        lemma_concat_associative(sep, acc, spec_pad_left(vacuum_density@[1]@, 18));
                        acc = acc + spec_pad_left(vacuum_density@[1]@, 18);
                    }
                    out.append("\n  Vacuum Spin Y: ");
                    proof {
                        lemma_concat_associative(sep, acc, "\n  Vacuum Spin Y: "@);
                        acc = acc + "\n  Vacuum Spin Y: "@;
                    }
                    push_pad_left(&mut out, vacuum_density[2].as_str(), 18);
                    proof {
                        lemma_concat_associative(sep, acc, spec_pad_left(vacuum_density@[2]@, 18));
                        acc = acc + spec_pad_left(vacuum_density@[2]@, 18);
                    }
                    out.append("\n  Vacuum Spin Z: ");
                    proof {
                        lemma_concat_associative(sep, acc, "\n  Vacuum Spin Z: "@);
                        acc = acc + "\n  Vacuum Spin Z: "@;
                    }
                    push_pad_left(&mut out, vacuum_density[3].as_str(), 18);
                    proof {
                        lemma_concat_associative(sep, acc, spec_pad_left(vacuum_density@[3]@, 18));
                        acc = acc + spec_pad_left(vacuum_density@[3]@, 18);
                    }
                    out.append("\n  Vacuum Volume: ");
                    proof {
                        lemma_concat_associative(sep, acc, "\n  Vacuum Volume: "@);
                        acc = acc + "\n  Vacuum Volume: "@;
                    }
                    push_pad_left(&mut out, vacuum_volume, 18);
                    proof {
                        lemma_concat_associative(sep, acc, spec_pad_left(vacuum_volume@, 18));
                        acc = acc + spec_pad_left(vacuum_volume@, 18);
                    }
                    out.append("\n  Partitioned Charge: ");
                    proof {
                        lemma_concat_associative(sep, acc, "\n  Partitioned Charge: "@);
                        acc = acc + "\n  Partitioned Charge: "@;
                    }
                    push_pad_left(&mut out, partitioned_density[0].as_str(), 13);
                    proof {
                        lemma_concat_associative(sep, acc, spec_pad_left(partitioned_density@[0]@, 13));
                        acc = acc + spec_pad_left(partitioned_density@[0]@, 13);
                    }
                    out.append("\n  Partitioned Spin X: ");
                    proof {
                        lemma_concat_associative(sep, acc, "\n  Partitioned Spin X: "@);
                        acc = acc + "\n  Partitioned Spin X: "@;
                    }
                    push_pad_left(&mut out, partitioned_density[1].as_str(), 13);
                    proof {
                        lemma_concat_associative(sep, acc, spec_pad_left(partitioned_density@[1]@, 13));
                        acc = acc + spec_pad_left(partitioned_density@[1]@, 13);
                    }
                    out.append("\n  Partitioned Spin Y: ");
                    proof {
                        lemma_concat_associative(sep, acc, "\n  Partitioned Spin Y: "@);
                        acc = acc + "\n  Partitioned Spin Y: "@;
                    }
                    push_pad_left(&mut out, partitioned_density[2].as_str(), 13);
                    proof {
                        lemma_concat_associative(sep, acc, spec_pad_left(partitioned_density@[2]@, 13));
                        acc = acc + spec_pad_left(partitioned_density@[2]@, 13);
                    }
                    out.append("\n  Partitioned Spin Z: ");
                    proof {
                        lemma_concat_associative(sep, acc, "\n  Partitioned Spin Z: "@);
                        acc = acc + "\n  Partitioned Spin Z: "@;
                    }
                    push_pad_left(&mut out, partitioned_density[3].as_str(), 13);
                    proof {
                        lemma_concat_associative(sep, acc, spec_pad_left(partitioned_density@[3]@, 13));
                        acc = acc + spec_pad_left(partitioned_density@[3]@, 13);
                    }
                    out.append("\n  Partitioned Volume: ");
                    proof {
                        lemma_concat_associative(sep, acc, "\n  Partitioned Volume: "@);
                        acc = acc + "\n  Partitioned Volume: "@;
                    }
                    push_pad_left(&mut out, partitioned_volume, 13);
                    proof {
                        lemma_concat_associative(sep, acc, spec_pad_left(partitioned_volume@, 13));
                        acc = acc + spec_pad_left(partitioned_volume@, 13);
                    }
                    proof {
                        assert(acc == footer_lines(
                            self.density_num as int,
                            vacuum_density@,
                            vacuum_volume@,
                            partitioned_density@,
                            partitioned_volume@,
                        ));
                    }
                } else {
                    out.append("\n  Vacuum Charge: ");
                    proof { acc = "\n  Vacuum Charge: "@; }
                    push_pad_left(&mut out, vacuum_density[0].as_str(), 18);
                    proof {
                        lemma_concat_associative(sep, acc, spec_pad_left(vacuum_density@[0]@, 18));
                        acc = acc + spec_pad_left(vacuum_density@[0]@, 18);
                    }
                    out.append("\n  Vacuum Volume: ");
                    proof {
                        lemma_concat_associative(sep, acc, "\n  Vacuum Volume: "@);
                        acc = acc + "\n  Vacuum Volume: "@;
                    }
                    push_pad_left(&mut out, vacuum_volume, 18);
                    proof {
                        lemma_concat_associative(sep, acc, spec_pad_left(vacuum_volume@, 18));
                        acc = acc + spec_pad_left(vacuum_volume@, 18);
                    }
                    out.append("\n  Partitioned Charge: ");
                    proof {
                        lemma_concat_associative(sep, acc, "\n  Partitioned Charge: "@);
                        acc = acc + "\n  Partitioned Charge: "@;
                    }
                    push_pad_left(&mut out, partitioned_density[0].as_str(), 13);
                    proof {
                        lemma_concat_associative(sep, acc, spec_pad_left(partitioned_density@[0]@, 13));
                        acc = acc + spec_pad_left(partitioned_density@[0]@, 13);
                    }
                    out.append("\n  Partitioned Volume: ");
                    proof {
                        lemma_concat_associative(sep, acc, "\n  Partitioned Volume: "@);
                        acc = acc + "\n  Partitioned Volume: "@;
                    }
                    push_pad_left(&mut out, partitioned_volume, 13);
                    proof {
                        lemma_concat_associative(sep, acc, spec_pad_left(partitioned_volume@, 13));
                        acc = acc + spec_pad_left(partitioned_volume@, 13);
                    }
                    proof {
                        assert(acc == footer_lines(
                            self.density_num as int,
                            vacuum_density@,
                            vacuum_volume@,
                            partitioned_density@,
                            partitioned_volume@,
                        ));
                    }
                }
                proof {
                    assert(out@ == sep + acc);
                }
                out
            },
        }
    }
}

/// Number of separator markers (empty rows) among the first `upto` rows.
pub open spec fn count_seps(rows: Seq<Vec<String>>, upto: int) -> int
    decreases upto,
{
    if upto <= 0 {
        0
    } else {
        count_seps(rows, upto - 1) + if rows[upto - 1]@.len() == 0 {
            1int
        } else {
            0int
        }
    }
}

/// Separator markers only accumulate: a longer prefix has at least as many.
pub proof fn lemma_count_seps_monotone(rows: Seq<Vec<String>>, a: int, b: int)
    requires
        a <= b,
    ensures
        count_seps(rows, a) <= count_seps(rows, b),
    decreases b - a,
{
    if a < b {
        lemma_count_seps_monotone(rows, a, b - 1);
    }
}

/// The cells of columns `0 .. upto` of a filled row: each cell
/// right-aligned in its column between ` ` and ` |`, except that the
/// final cell's `|` is cut off.
pub open spec fn row_cells(row: Seq<String>, widths: Seq<usize>, upto: int) -> Seq<char>
    decreases upto,
{
    if upto <= 0 {
        Seq::empty()
    } else if upto == row.len() {
        row_cells(row, widths, upto - 1) + seq![' '] + spec_pad_left(
            row[upto - 1]@,
            widths[upto - 1] as int,
        ) + seq![' ']
    } else {
        row_cells(row, widths, upto - 1) + seq![' '] + spec_pad_left(
            row[upto - 1]@,
            widths[upto - 1] as int,
        ) + seq![' ', '|']
    }
}

/// The first `upto` table lines: filled rows as aligned cells, separator
/// markers as separator lines labelled in order, each line closed by a
/// newline.
pub open spec fn body_lines(
    rows: Seq<Vec<String>>,
    widths: Seq<usize>,
    seps: Seq<usize>,
    table_type: TableType,
    upto: int,
) -> Seq<char>
    decreases upto,
{
    if upto <= 0 {
        Seq::empty()
    } else {
        body_lines(rows, widths, seps, table_type, upto - 1) + (if rows[upto - 1]@.len() == 0 {
            spec_separator(widths, table_type, seps[count_seps(rows, upto - 1)] as nat)
        } else {
            row_cells(rows[upto - 1]@, widths, rows[upto - 1]@.len() as int)
        }) + seq!['\n']
    }
}

/// The complete rendering of a table: header, body and footer.
pub open spec fn spec_table_string(
    widths: Seq<usize>,
    density_num: int,
    rows: Seq<Vec<String>>,
    seps: Seq<usize>,
    table_type: TableType,
    vd: Seq<String>,
    vv: Seq<char>,
    pd: Seq<String>,
    pv: Seq<char>,
) -> Seq<char> {
    spec_header(widths, density_num) + body_lines(rows, widths, seps, table_type, rows.len() as int)
        + spec_footer(widths, table_type, density_num, vd, vv, pd, pv)
}

impl Table {
    /// Creates the string representation of the table: the header, every
    /// row or separator on its own line, and the footer of totals.
    #[verifier::loop_isolation(false)]
    pub fn get_string(
        self,
        vacuum_density: &Vec<String>,
        vacuum_volume: &str,
        partitioned_density: &Vec<String>,
        partitioned_volume: &str,
    ) -> (s: String)
        requires
            self.wf(),
            count_seps(self.rows@, self.rows@.len() as int) <= self.separators@.len(),
            self.table_type is AtomsCharge ==> footer_values_ok(
                self.density_num as int,
                vacuum_density@,
                partitioned_density@,
            ),
            is_ascii_chars(vacuum_volume@),
            is_ascii_chars(partitioned_volume@),
        ensures
            s@ == spec_table_string(
                self.column_width@,
                self.density_num as int,
                self.rows@,
                self.separators@,
                self.table_type,
                vacuum_density@,
                vacuum_volume@,
                partitioned_density@,
                partitioned_volume@,
            ),
    {
        proof {
            reveal_strlit(" ");
            reveal_strlit(" |");
            reveal_strlit("\n");
        }
        let mut out = self.format_header();
        let ghost header = out@;
        let n_rows: usize = self.rows.len();
        let mut si: usize = 0;
        let mut r: usize = 0;
        while r < n_rows
            invariant
                r <= n_rows,
                si == count_seps(self.rows@, r as int),
                out@ == header + body_lines(
                    self.rows@,
                    self.column_width@,
                    self.separators@,
                    self.table_type,
                    r as int,
                ),
            decreases n_rows - r,
        {
            let n_seps: usize = self.separators.len();
            let row: &Vec<String> = &self.rows[r];
            let n_cells: usize = row.len();
            if n_cells == 0 {
                proof {
                    assert(count_seps(self.rows@, r + 1) == count_seps(self.rows@, r as int) + 1);
                    lemma_count_seps_monotone(self.rows@, r + 1, self.rows@.len() as int);
                }
                let sep = self.format_separator(self.separators[si]);
                out.append(sep.as_str());
                si = si + 1;
            } else {
                let ghost line_start = out@;
                let mut c: usize = 0;
                proof {
                    assert(row_cells(row@, self.column_width@, 0) =~= Seq::<char>::empty());
                    assert(out@ =~= line_start + row_cells(row@, self.column_width@, 0));
                }
                while c < n_cells
                    invariant
                        c <= n_cells,
                        out@ == line_start + row_cells(row@, self.column_width@, c as int),
                    decreases n_cells - c,
                {
                    out.append(" ");
                    push_pad_left(&mut out, row[c].as_str(), self.column_width[c]);
                    if c + 1 == n_cells {
                        out.append(" ");
                        proof {
                            assert(" "@ =~= seq![' ']);
                            assert(out@ =~= line_start + row_cells(
                                row@,
                                self.column_width@,
                                c + 1,
                            ));
                        }
                    } else {
                        out.append(" |");
                        proof {
                            assert(" "@ =~= seq![' ']);
                            assert(" |"@ =~= seq![' ', '|']);
                            assert(out@ =~= line_start + row_cells(
                                row@,
                                self.column_width@,
                                c + 1,
                            ));
                        }
                    }
                    c = c + 1;
                }
            }
            out.append("\n");
            proof {
                assert("\n"@ =~= seq!['\n']);
                assert(out@ =~= header + body_lines(
                    self.rows@,
                    self.column_width@,
                    self.separators@,
                    self.table_type,
                    r + 1,
                ));
            }
            r = r + 1;
        }
        let footer = self.format_footer(
            vacuum_density,
            vacuum_volume,
            partitioned_density,
            partitioned_volume,
        );
        out.append(footer.as_str());
        proof {
            assert(out@ =~= spec_table_string(
                self.column_width@,
                self.density_num as int,
                self.rows@,
                self.separators@,
                self.table_type,
                vacuum_density@,
                vacuum_volume@,
                partitioned_density@,
                partitioned_volume@,
            ));
        }
        out
    }
}

/// The indices below `upto` whose key is `a`, in increasing order.
pub open spec fn indices_with_key(keys: Seq<usize>, a: int, upto: int) -> Seq<usize>
    decreases upto,
{
    if upto <= 0 {
        Seq::empty()
    } else if keys[upto - 1] == a {
        indices_with_key(keys, a, upto - 1).push((upto - 1) as usize)
    } else {
        indices_with_key(keys, a, upto - 1)
    }
}

/// All indices `0 .. keys.len()` grouped by key: those with key `0`
/// first, then key `1`, and so on up to `n_keys` groups; within a group
/// the original order is kept.
pub open spec fn grouped_order(keys: Seq<usize>, n_keys: int) -> Seq<usize>
    decreases n_keys,
{
    if n_keys <= 0 {
        Seq::empty()
    } else {
        grouped_order(keys, n_keys - 1) + indices_with_key(keys, n_keys - 1, keys.len() as int)
    }
}

/// One more than the largest key, and `0` for no keys: the number of
/// groups a grouped ordering has.
pub open spec fn n_groups(keys: Seq<usize>) -> int
    decreases keys.len(),
{
    if keys.len() == 0 {
        0
    } else if n_groups(keys.drop_last()) >= keys.last() + 1 {
        n_groups(keys.drop_last())
    } else {
        keys.last() + 1
    }
}

/// The order in which the BCF table lists basins: stably sorted by the
/// atom each basin is assigned to.
#[verifier::loop_isolation(false)]
pub fn sort_by_atom(atom_map: &Vec<usize>) -> (r: Vec<usize>)
    requires
        forall|i: int| 0 <= i < atom_map@.len() ==> #[trigger] atom_map@[i] < usize::MAX,
    ensures
        r@ == grouped_order(atom_map@, n_groups(atom_map@)),
{
    let n: usize = atom_map.len();
    let mut m: usize = 0;
    let mut i: usize = 0;
    while i < n
        invariant
            i <= n,
            m == n_groups(atom_map@.subrange(0, i as int)),
        decreases n - i,
    {
        proof {
            assert(atom_map@.subrange(0, i + 1).drop_last() =~= atom_map@.subrange(0, i as int));
        }
        let k: usize = atom_map[i];
        if k + 1 > m {
            m = k + 1;
        }
        i = i + 1;
    }
    proof {
        assert(atom_map@.subrange(0, n as int) =~= atom_map@);
    }
    let mut r: Vec<usize> = Vec::new();
    let mut a: usize = 0;
    proof {
        assert(r@ =~= grouped_order(atom_map@, 0));
    }
    while a < m
        invariant
            a <= m,
            r@ == grouped_order(atom_map@, a as int),
        decreases m - a,
    {
        let mut i: usize = 0;
        proof {
            assert(r@ =~= grouped_order(atom_map@, a as int) + indices_with_key(atom_map@, a as int, 0));
        }
        while i < n
            invariant
                i <= n,
                a < m,
                r@ == grouped_order(atom_map@, a as int) + indices_with_key(
                    atom_map@,
                    a as int,
                    i as int,
                ),
            decreases n - i,
        {
            if atom_map[i] == a {
                r.push(i);
            }
            proof {
                assert(r@ =~= grouped_order(atom_map@, a as int) + indices_with_key(
                    atom_map@,
                    a as int,
                    i + 1,
                ));
            }
            i = i + 1;
        }
        a = a + 1;
    }
    r
}

/// Indices with key `a` are below `upto`, carry the key `a`, and include
/// every such index.
pub proof fn lemma_indices_with_key(keys: Seq<usize>, a: int, upto: int)
    requires
        0 <= upto <= keys.len(),
        keys.len() <= usize::MAX,
    ensures
        forall|e: int|
            0 <= e < indices_with_key(keys, a, upto).len() ==> {
                let v = #[trigger] indices_with_key(keys, a, upto)[e];
                v < upto && keys[v as int] == a
            },
        forall|v: int|
            0 <= v < upto && keys[v] == a ==> indices_with_key(keys, a, upto).contains(v as usize),
    decreases upto,
{
    if upto > 0 {
        lemma_indices_with_key(keys, a, upto - 1);
        let pre = indices_with_key(keys, a, upto - 1);
        let cur = indices_with_key(keys, a, upto);
        assert forall|v: int|
            0 <= v < upto && keys[v] == a implies cur.contains(v as usize) by {
            if v < upto - 1 {
                let e = choose|e: int| 0 <= e < pre.len() && pre[e] == v as usize;
                assert(cur[e] == v as usize);
            } else {
                assert(cur[cur.len() - 1] == v as usize);
            }
        }
    }
}

/// Every key is below the group count.
pub proof fn lemma_n_groups_bounds(keys: Seq<usize>)
    ensures
        forall|v: int| 0 <= v < keys.len() ==> #[trigger] keys[v] < n_groups(keys),
    decreases keys.len(),
{
    if keys.len() > 0 {
        lemma_n_groups_bounds(keys.drop_last());
        assert forall|v: int| 0 <= v < keys.len() implies #[trigger] keys[v] < n_groups(
            keys,
        ) by {
            if v < keys.len() - 1 {
                assert(keys.drop_last()[v] == keys[v]);
            }
        }
    }
}

/// A grouped order lists only indices into the keys, and every index
/// whose key is below the group bound, so with the bound of
/// `lemma_n_groups_bounds` it lists every index exactly where its group
/// lies.
pub proof fn lemma_grouped_order_complete(keys: Seq<usize>, n_keys: int)
    requires
        keys.len() <= usize::MAX,
    ensures
        forall|e: int|
            0 <= e < grouped_order(keys, n_keys).len() ==> #[trigger] grouped_order(keys, n_keys)[e]
                < keys.len(),
        forall|v: int|
            0 <= v < keys.len() && keys[v] < n_keys ==> grouped_order(keys, n_keys).contains(
                v as usize,
            ),
    decreases n_keys,
{
    if n_keys > 0 {
        lemma_grouped_order_complete(keys, n_keys - 1);
        lemma_indices_with_key(keys, n_keys - 1, keys.len() as int);
        let pre = grouped_order(keys, n_keys - 1);
        let blk = indices_with_key(keys, n_keys - 1, keys.len() as int);
        let cur = grouped_order(keys, n_keys);
        assert forall|v: int|
            0 <= v < keys.len() && keys[v] < n_keys implies cur.contains(v as usize) by {
            if keys[v] < n_keys - 1 {
                let e = choose|e: int| 0 <= e < pre.len() && pre[e] == v as usize;
                assert(cur[e] == v as usize);
            } else {
                let e = choose|e: int| 0 <= e < blk.len() && blk[e] == v as usize;
                assert(cur[pre.len() + e] == v as usize);
            }
        }
    }
}

/// The character views of the cells of one table row.
pub open spec fn row_views(row: Seq<String>) -> Seq<Seq<char>> {
    row.map_values(|s: String| s@)
}

/// The character views of every row of a table.
pub open spec fn table_views(rows: Seq<Vec<String>>) -> Seq<Seq<Seq<char>>> {
    rows.map_values(|v: Vec<String>| row_views(v@))
}

/// The expected cells of the result row shown under the number `idx`:
/// the decimal index, the three coordinates, one value per density, the
/// volume and the distance.
pub open spec fn expected_cells(
    idx: nat,
    p: (String, String, String),
    den: Seq<String>,
    vol: String,
    dist: String,
) -> Seq<Seq<char>> {
    seq![spec_decimal(idx), p.0@, p.1@, p.2@] + row_views(den) + seq![vol@, dist@]
}

/// The expected cells of every source row, shown under its index plus
/// `base` (zero for basins, one for atoms).
pub open spec fn all_expected_cells(
    base: nat,
    positions: Seq<(String, String, String)>,
    den: Seq<Vec<String>>,
    vol: Seq<String>,
    dist: Seq<String>,
) -> Seq<Seq<Seq<char>>> {
    Seq::new(
        positions.len(),
        |i: int| expected_cells((i + base) as nat, positions[i], den[i]@, vol[i], dist[i]),
    )
}

/// The atom changes between entries `u - 1` and `u` of a grouped order.
pub open spec fn atom_change(keys: Seq<usize>, order: Seq<usize>, u: int) -> bool {
    keys[order[u] as int] != keys[order[u - 1] as int]
}

/// The body rows of a BCF table for the first `upto` entries of the
/// grouped order: the cells of each listed basin, with an empty
/// separator row inserted wherever the atom changes.
pub open spec fn bcf_rows(
    keys: Seq<usize>,
    order: Seq<usize>,
    cells: Seq<Seq<Seq<char>>>,
    upto: int,
) -> Seq<Seq<Seq<char>>>
    decreases upto,
{
    if upto <= 0 {
        Seq::empty()
    } else {
        bcf_rows(keys, order, cells, upto - 1) + (if upto - 1 >= 1 && atom_change(
            keys,
            order,
            upto - 1,
        ) {
            seq![Seq::<Seq<char>>::empty()]
        } else {
            Seq::empty()
        }) + seq![cells[order[upto - 1] as int]]
    }
}

/// The separator labels of a BCF table after the opening one: one more
/// than the atom number, wherever the atom changes.
pub open spec fn bcf_labels(keys: Seq<usize>, order: Seq<usize>, upto: int) -> Seq<usize>
    decreases upto,
{
    if upto <= 0 {
        Seq::empty()
    } else {
        bcf_labels(keys, order, upto - 1) + (if upto - 1 >= 1 && atom_change(
            keys,
            order,
            upto - 1,
        ) {
            seq![(keys[order[upto - 1] as int] + 1) as usize]
        } else {
            Seq::empty()
        })
    }
}

/// One row's growth of the column widths: each column becomes wide
/// enough for its new cell.
pub open spec fn grow_widths(w: Seq<usize>, row: Seq<Seq<char>>) -> Seq<usize> {
    Seq::new(
        w.len(),
        |i: int|
            if i < row.len() && row[i].len() > w[i] {
                row[i].len() as usize
            } else {
                w[i]
            },
    )
}

/// The column widths after fitting all the given rows in order.
pub open spec fn grown_widths(w: Seq<usize>, rows: Seq<Seq<Seq<char>>>) -> Seq<usize>
    decreases rows.len(),
{
    if rows.len() == 0 {
        w
    } else {
        grow_widths(grown_widths(w, rows.drop_last()), rows.last())
    }
}

/// Every cell a table accepts: ASCII and clear of the address-space
/// limit, one density value per density.
pub open spec fn table_inputs_ok(
    positions: Seq<(String, String, String)>,
    den: Seq<Vec<String>>,
    vol: Seq<String>,
    dist: Seq<String>,
    density_num: int,
) -> bool {
    &&& den.len() == positions.len()
    &&& vol.len() == positions.len()
    &&& dist.len() == positions.len()
    &&& forall|i: int|
        0 <= i < positions.len() ==> {
            let p = #[trigger] positions[i];
            &&& is_ascii_chars(p.0@) && p.0@.len() <= usize::MAX - 3
            &&& is_ascii_chars(p.1@) && p.1@.len() <= usize::MAX - 3
            &&& is_ascii_chars(p.2@) && p.2@.len() <= usize::MAX - 3
        }
    &&& forall|i: int| 0 <= i < den.len() ==> (#[trigger] den[i])@.len() == density_num
    &&& forall|i: int, d: int|
        0 <= i < den.len() && 0 <= d < den[i]@.len() ==> {
            let s = (#[trigger] den[i]@[d])@;
            is_ascii_chars(s) && s.len() <= usize::MAX - 3
        }
    &&& forall|i: int|
        0 <= i < vol.len() ==> is_ascii_chars((#[trigger] vol[i])@) && vol[i]@.len() <= usize::MAX
            - 3
    &&& forall|i: int|
        0 <= i < dist.len() ==> is_ascii_chars((#[trigger] dist[i])@) && dist[i]@.len()
            <= usize::MAX - 3
}

/// Build the partitioned charge table rows: with an atom map the rows
/// are basins grouped stably by atom with a labelled separator before
/// each group (the BCF layout), without one they are the atoms in order,
/// numbered from one (the ACF layout).  Every column is left exactly as
/// wide as its widest cell.
#[verifier::loop_isolation(false)]
pub fn partitions_table(
    positions: &Vec<(String, String, String)>,
    density_text: &Vec<Vec<String>>,
    volume_text: &Vec<String>,
    distance_text: &Vec<String>,
    atom_map: Option<&Vec<usize>>,
    density_num: usize,
) -> (t: Table)
    requires
        density_num <= 4,
        table_inputs_ok(
            positions@,
            density_text@,
            volume_text@,
            distance_text@,
            density_num as int,
        ),
        atom_map matches Some(am) ==> am@.len() == positions@.len() && positions@.len() >= 1
            && forall|i: int| 0 <= i < am@.len() ==> #[trigger] am@[i] < usize::MAX,
    ensures
        t.wf(),
        t.density_num == density_num,
        t.column_width@ == grown_widths(initial_widths(density_num as int), table_views(t.rows@)),
        match atom_map {
            Some(am) => {
                let order = grouped_order(am@, n_groups(am@));
                let cells = all_expected_cells(
                    0,
                    positions@,
                    density_text@,
                    volume_text@,
                    distance_text@,
                );
                &&& t.table_type == TableType::BaderCharge
                &&& order.len() >= 1
                &&& t.separators@ == seq![(am@[order[0] as int] + 1) as usize] + bcf_labels(
                    am@,
                    order,
                    order.len() as int,
                )
                &&& table_views(t.rows@) == seq![Seq::<Seq<char>>::empty()] + bcf_rows(
                    am@,
                    order,
                    cells,
                    order.len() as int,
                )
            },
            None => {
                &&& t.table_type == TableType::AtomsCharge
                &&& t.separators@ == initial_separators(TableType::AtomsCharge)
                &&& table_views(t.rows@) == seq![Seq::<Seq<char>>::empty()] + all_expected_cells(
                    1,
                    positions@,
                    density_text@,
                    volume_text@,
                    distance_text@,
                )
            },
        },
{
    let n: usize = positions.len();
    match atom_map {
        Some(am) => {
            let ghost cells = all_expected_cells(
                0,
                positions@,
                density_text@,
                volume_text@,
                distance_text@,
            );
            let order = sort_by_atom(am);
            proof {
                lemma_n_groups_bounds(am@);
                lemma_grouped_order_complete(am@, n_groups(am@));
                assert(am@[0] < n_groups(am@));
                assert(order@.contains(0usize));
                assert(order@.len() >= 1);
            }
            let mut t = Table::new(TableType::BaderCharge, density_num);
            let first: usize = am[order[0]];
            t.separators.push(first + 1);
            let mut atom_num: usize = first;
            proof {
                assert(table_views(t.rows@) =~~= seq![Seq::<Seq<char>>::empty()] + bcf_rows(
                    am@,
                    order@,
                    cells,
                    0,
                ));
                assert(t.separators@ =~= seq![(first + 1) as usize] + bcf_labels(am@, order@, 0));
                let iw = initial_widths(density_num as int);
                let tv = table_views(t.rows@);
                assert(tv.drop_last().len() == 0);
                assert(grown_widths(iw, tv.drop_last()) == iw);
                assert(tv.last() =~~= Seq::<Seq<char>>::empty());
                assert(grow_widths(iw, tv.last()) =~= iw);
                assert(t.column_width@ =~= grown_widths(iw, tv));
            }
            let n_order: usize = order.len();
            let mut u: usize = 0;
            while u < n_order
                invariant
                    n_order == order@.len(),
                    u <= n_order,
                    t.wf(),
                    t.table_type == TableType::BaderCharge,
                    t.density_num == density_num,
                    table_views(t.rows@) == seq![Seq::<Seq<char>>::empty()] + bcf_rows(
                        am@,
                        order@,
                        cells,
                        u as int,
                    ),
                    t.separators@ == seq![(first + 1) as usize] + bcf_labels(am@, order@, u as int),
                    t.column_width@ == grown_widths(
                        initial_widths(density_num as int),
                        table_views(t.rows@),
                    ),
                    u == 0 ==> atom_num == am@[order@[0] as int],
                    u >= 1 ==> atom_num == am@[order@[u - 1] as int],
                decreases n_order - u,
            {
                let i: usize = order[u];
                let a: usize = am[i];
                if a != atom_num {
                    let ghost before = t;
                    t.add_separator(a + 1);
                    proof {
                        assert(row_views(t.rows@.last()@) =~~= Seq::<Seq<char>>::empty());
                        assert(table_views(t.rows@) =~~= table_views(before.rows@).push(
                            Seq::<Seq<char>>::empty(),
                        ));
                        assert(grow_widths(t.column_width@, Seq::<Seq<char>>::empty())
                            =~= t.column_width@);
                        assert(table_views(t.rows@).drop_last() =~~= table_views(before.rows@));
                        assert(t.column_width@ =~= grown_widths(
                            initial_widths(density_num as int),
                            table_views(t.rows@),
                        ));
                    }
                    atom_num = a;
                }
                let ghost mid = t;
                let p = &positions[i];
                let row_p = (p.0.clone(), p.1.clone(), p.2.clone());
                let vol: String = volume_text[i].clone();
                let dist: String = distance_text[i].clone();
                t.add_row(i, row_p, &density_text[i], vol, dist);
                proof {
                    let row = t.rows@.last()@;
                    assert forall|c: int|
                        0 <= c < row_views(row).len() implies row_views(row)[c] == cells[i as int][c] by {
                        if 4 <= c < 4 + density_num {
                            assert((row[4 + (c - 4)])@ == (density_text@[i as int]@[c - 4])@);
                        }
                    }
                    assert(row_views(t.rows@.last()@) =~~= cells[i as int]);
                    assert(table_views(t.rows@) =~~= table_views(mid.rows@).push(cells[i as int]));
                    assert(t.column_width@ =~= grow_widths(mid.column_width@, cells[i as int]));
                    assert(table_views(t.rows@).drop_last() =~~= table_views(mid.rows@));
                    assert(table_views(t.rows@) =~~= seq![Seq::<Seq<char>>::empty()] + bcf_rows(
                        am@,
                        order@,
                        cells,
                        u + 1,
                    ));
                    assert(t.separators@ =~= seq![(first + 1) as usize] + bcf_labels(
                        am@,
                        order@,
                        u + 1,
                    ));
                }
                u = u + 1;
            }
            t
        },
        None => {
            let mut t = Table::new(TableType::AtomsCharge, density_num);
            proof {
                assert(table_views(t.rows@) =~~= seq![Seq::<Seq<char>>::empty()]
                    + all_expected_cells(
                    1,
                    positions@,
                    density_text@,
                    volume_text@,
                    distance_text@,
                ).take(0));
                let iw = initial_widths(density_num as int);
                let tv = table_views(t.rows@);
                assert(tv.drop_last().len() == 0);
                assert(grown_widths(iw, tv.drop_last()) == iw);
                assert(tv.last() =~~= Seq::<Seq<char>>::empty());
                assert(grow_widths(iw, tv.last()) =~= iw);
                assert(t.column_width@ =~= grown_widths(iw, tv));
            }
            let mut u: usize = 0;
            while u < n
                invariant
                    n == positions@.len(),
                    u <= n,
                    t.wf(),
                    t.table_type == TableType::AtomsCharge,
                    t.density_num == density_num,
                    t.separators@ == initial_separators(TableType::AtomsCharge),
                    table_views(t.rows@) == seq![Seq::<Seq<char>>::empty()] + all_expected_cells(
                        1,
                        positions@,
                        density_text@,
                        volume_text@,
                        distance_text@,
                    ).take(u as int),
                    t.column_width@ == grown_widths(
                        initial_widths(density_num as int),
                        table_views(t.rows@),
                    ),
                decreases n - u,
            {
                let ghost mid = t;
                let ghost cells = all_expected_cells(
                    1,
                    positions@,
                    density_text@,
                    volume_text@,
                    distance_text@,
                );
                let p = &positions[u];
                let row_p = (p.0.clone(), p.1.clone(), p.2.clone());
                let vol: String = volume_text[u].clone();
                let dist: String = distance_text[u].clone();
                t.add_row(u + 1, row_p, &density_text[u], vol, dist);
                proof {
                    let row = t.rows@.last()@;
                    assert forall|c: int|
                        0 <= c < row_views(row).len() implies row_views(row)[c] == cells[u as int][c] by {
                        if 4 <= c < 4 + density_num {
                            assert((row[4 + (c - 4)])@ == (density_text@[u as int]@[c - 4])@);
                        }
                    }
                    assert(row_views(t.rows@.last()@) =~~= cells[u as int]);
                    assert(table_views(t.rows@) =~~= table_views(mid.rows@).push(cells[u as int]));
                    assert(t.column_width@ =~= grow_widths(mid.column_width@, cells[u as int]));
                    assert(table_views(t.rows@).drop_last() =~~= table_views(mid.rows@));
                    assert(table_views(t.rows@) =~~= seq![Seq::<Seq<char>>::empty()] + cells.take(
                        u + 1,
                    ));
                }
                u = u + 1;
            }
            proof {
                assert(all_expected_cells(
                    1,
                    positions@,
                    density_text@,
                    volume_text@,
                    distance_text@,
                ).take(n as int) =~~= all_expected_cells(
                    1,
                    positions@,
                    density_text@,
                    volume_text@,
                    distance_text@,
                ));
            }
            t
        },
    }
}

/// The heading text of column `c`.
fn header_label_str(c: usize, density_num: usize) -> (s: &'static str)
    requires
        c < spec_n_columns(density_num as int),
    ensures
        s@ == header_label(c as int, density_num as int),
        is_ascii_chars(s@),
        s@.len() <= 8,
{
    proof {
        reveal_strlit("#");
        reveal_strlit("X");
        reveal_strlit("Y");
        reveal_strlit("Z");
        reveal_strlit("Charge");
        reveal_strlit("Volume");
        reveal_strlit("Distance");
        reveal_strlit("Spin");
        reveal_strlit("Spin X");
        reveal_strlit("Spin Y");
        reveal_strlit("Spin Z");
    }
    let n: usize = if density_num > 2 {
        10
    } else if density_num == 2 {
        8
    } else {
        7
    };
    if c == 0 {
        "#"
    } else if c == 1 {
        "X"
    } else if c == 2 {
        "Y"
    } else if c == 3 {
        "Z"
    } else if c == 4 {
        "Charge"
    } else if c == n - 2 {
        "Volume"
    } else if c == n - 1 {
        "Distance"
    } else if density_num == 2 {
        "Spin"
    } else if c == 5 {
        "Spin X"
    } else if c == 6 {
        "Spin Y"
    } else {
        "Spin Z"
    }
}

} // verus!
