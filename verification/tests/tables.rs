use bader::output::partitions_table;
use bader::output::sort_by_atom;
use bader::output::Table;
use bader::output::TableType;
use bader::text::usize_to_string;

#[test]
fn decimal_rendering() {
    assert_eq!(usize_to_string(0), "0");
    assert_eq!(usize_to_string(7), "7");
    assert_eq!(usize_to_string(10), "10");
    assert_eq!(usize_to_string(40960), "40960");
}

#[test]
fn new_sets_minimum_widths() {
    assert_eq!(
        Table::new(TableType::AtomsCharge, 1).column_width,
        vec![1, 1, 1, 1, 6, 6, 8]
    );
    assert_eq!(
        Table::new(TableType::AtomsCharge, 2).column_width,
        vec![1, 1, 1, 1, 6, 6, 6, 8]
    );
    assert_eq!(
        Table::new(TableType::BaderCharge, 4).column_width,
        vec![1, 1, 1, 1, 6, 6, 6, 6, 6, 8]
    );
    assert_eq!(Table::new(TableType::AtomsCharge, 1).separators, vec![0, 0]);
    assert!(Table::new(TableType::BaderCharge, 1).separators.is_empty());
}

#[test]
fn columns_grow_to_fit_cells() {
    let mut t = Table::new(TableType::AtomsCharge, 1);
    t.add_row(
        12,
        (
            String::from("10.125000"),
            String::from("0.0"),
            String::from("0.0"),
        ),
        &vec![String::from("1.5")],
        String::from("8.0"),
        String::from("0.0"),
    );
    assert_eq!(t.column_width, vec![2, 9, 3, 3, 6, 6, 8]);
    assert_eq!(t.rows.len(), 2);
    assert_eq!(t.rows[1][0], "12");
}

#[test]
fn acf_table_renders_exactly() {
    let mut t = Table::new(TableType::AtomsCharge, 1);
    t.add_row(
        1,
        (
            String::from("0.0"),
            String::from("0.0"),
            String::from("0.0"),
        ),
        &vec![String::from("1.5")],
        String::from("8.0"),
        String::from("0.0"),
    );
    let s = t.get_string(&vec![String::from("0.5")], "2.0", &vec![String::from("1.5")], "8.0");

    let sep = "---+-----+-----+-----+--------+--------+---------";
    let mut expected = String::new();
    expected.push_str(" # |  X  |  Y  |  Z  | Charge | Volume | Distance\n");
    expected.push_str(sep);
    expected.push('\n');
    expected.push_str(&format!(
        " {:>1} | {:>3} | {:>3} | {:>3} | {:>6} | {:>6} | {:>8} \n",
        "1", "0.0", "0.0", "0.0", "1.5", "8.0", "0.0"
    ));
    expected.push_str(sep);
    expected.push_str(&format!(
        "\n  Vacuum Charge: {:>18}\n  Vacuum Volume: {:>18}\n  Partitioned Charge: {:>13}\n  Partitioned Volume: {:>13}",
        "0.5", "2.0", "1.5", "8.0"
    ));
    assert_eq!(s, expected);
}

#[test]
fn acf_table_with_spin_renders_exactly() {
    let mut t = Table::new(TableType::AtomsCharge, 2);
    t.add_row(
        1,
        (
            String::from("4.0"),
            String::from("4.0"),
            String::from("4.0"),
        ),
        &vec![String::from("1.5"), String::from("0.25")],
        String::from("8.0"),
        String::from("0.0"),
    );
    let s = t.get_string(
        &vec![String::from("0.5"), String::from("0.1")],
        "2.0",
        &vec![String::from("1.5"), String::from("0.25")],
        "8.0",
    );
    let sep = "---+-----+-----+-----+--------+--------+--------+---------";
    let mut expected = String::new();
    expected.push_str(" # |  X  |  Y  |  Z  | Charge |  Spin  | Volume | Distance\n");
    expected.push_str(sep);
    expected.push('\n');
    expected.push_str(&format!(
        " {:>1} | {:>3} | {:>3} | {:>3} | {:>6} | {:>6} | {:>6} | {:>8} \n",
        "1", "4.0", "4.0", "4.0", "1.5", "0.25", "8.0", "0.0"
    ));
    expected.push_str(sep);
    expected.push_str(&format!(
        "\n  Vacuum Charge: {:>18}\n  Vacuum Spin: {:>20}\n  Vacuum Volume: {:>18}\n  Partitioned Charge: {:>13}\n  Partitioned Spin: {:>15}\n  Partitioned Volume: {:>13}",
        "0.5", "0.1", "2.0", "1.5", "0.25", "8.0"
    ));
    assert_eq!(s, expected);
}

#[test]
fn acf_table_with_spin_components_renders_exactly() {
    let mut t = Table::new(TableType::AtomsCharge, 4);
    t.add_row(
        1,
        (
            String::from("4.0"),
            String::from("4.0"),
            String::from("4.0"),
        ),
        &vec![
            String::from("1.5"),
            String::from("0.1"),
            String::from("0.2"),
            String::from("0.3"),
        ],
        String::from("8.0"),
        String::from("0.0"),
    );
    let s = t.get_string(
        &vec![
            String::from("0.5"),
            String::from("0.01"),
            String::from("0.02"),
            String::from("0.03"),
        ],
        "2.0",
        &vec![
            String::from("1.5"),
            String::from("0.1"),
            String::from("0.2"),
            String::from("0.3"),
        ],
        "8.0",
    );
    let sep = "---+-----+-----+-----+--------+--------+--------+--------+--------+---------";
    let mut expected = String::new();
    expected
        .push_str(" # |  X  |  Y  |  Z  | Charge | Spin X | Spin Y | Spin Z | Volume | Distance\n");
    expected.push_str(sep);
    expected.push('\n');
    expected.push_str(&format!(
        " {:>1} | {:>3} | {:>3} | {:>3} | {:>6} | {:>6} | {:>6} | {:>6} | {:>6} | {:>8} \n",
        "1", "4.0", "4.0", "4.0", "1.5", "0.1", "0.2", "0.3", "8.0", "0.0"
    ));
    expected.push_str(sep);
    expected.push_str(&format!(
        "\n  Vacuum Charge: {:>18}\n  Vacuum Spin X: {:>18}\n  Vacuum Spin Y: {:>18}\n  Vacuum Spin Z: {:>18}\n  Vacuum Volume: {:>18}\n  Partitioned Charge: {:>13}\n  Partitioned Spin X: {:>13}\n  Partitioned Spin Y: {:>13}\n  Partitioned Spin Z: {:>13}\n  Partitioned Volume: {:>13}",
        "0.5", "0.01", "0.02", "0.03", "2.0", "1.5", "0.1", "0.2", "0.3", "8.0"
    ));
    assert_eq!(s, expected);
}

#[test]
fn bcf_table_groups_basins_by_atom() {
    // Two basins: basin 0 on atom 1, basin 1 on atom 0.
    let atom_map = vec![1usize, 0];
    let order = sort_by_atom(&atom_map);
    assert_eq!(order, vec![1, 0]);

    let mut t = Table::new(TableType::BaderCharge, 1);
    let mut atom_num = atom_map[order[0]];
    t.separators.push(atom_num + 1);
    for i in order {
        let a = atom_map[i];
        if a != atom_num {
            t.add_separator(a + 1);
            atom_num = a;
        }
        let pos = (
            String::from("1.0"),
            String::from("4.0"),
            String::from("4.0"),
        );
        t.add_row(
            i,
            pos,
            &vec![String::from("0.5")],
            String::from("4.0"),
            String::from("1.0"),
        );
    }
    let s = t.get_string(&vec![String::from("0.0")], "0.0", &vec![String::from("1.0")], "8.0");

    let mut expected = String::new();
    expected.push_str(" # |  X  |  Y  |  Z  | Charge | Volume | Distance\n");
    expected.push_str("-Atom: 1-+-----+-----+--------+--------+---------\n");
    expected.push_str(&format!(
        " {:>1} | {:>3} | {:>3} | {:>3} | {:>6} | {:>6} | {:>8} \n",
        "1", "1.0", "4.0", "4.0", "0.5", "4.0", "1.0"
    ));
    expected.push_str("-Atom: 2-+-----+-----+--------+--------+---------\n");
    expected.push_str(&format!(
        " {:>1} | {:>3} | {:>3} | {:>3} | {:>6} | {:>6} | {:>8} \n",
        "0", "1.0", "4.0", "4.0", "0.5", "4.0", "1.0"
    ));
    assert_eq!(s, expected);
}

#[test]
fn partitions_table_matches_the_manual_flow() {
    // The same two-basin case as the manual BCF test, assembled by the
    // grouping function.
    let atom_map = vec![1usize, 0];
    let pos = |s: &str| (String::from(s), String::from("4.0"), String::from("4.0"));
    let positions = vec![pos("1.0"), pos("1.0")];
    let density_text = vec![vec![String::from("0.5")], vec![String::from("0.5")]];
    let volume_text = vec![String::from("4.0"), String::from("4.0")];
    let distance_text = vec![String::from("1.0"), String::from("1.0")];
    let t = partitions_table(
        &positions,
        &density_text,
        &volume_text,
        &distance_text,
        Some(&atom_map),
        1,
    );
    assert_eq!(t.separators, vec![1, 2]);
    assert_eq!(t.rows.len(), 4);
    assert!(t.rows[0].is_empty());
    assert_eq!(t.rows[1][0], "1");
    assert!(t.rows[2].is_empty());
    assert_eq!(t.rows[3][0], "0");

    let acf = partitions_table(
        &positions,
        &density_text,
        &volume_text,
        &distance_text,
        None,
        1,
    );
    assert_eq!(acf.separators, vec![0, 0]);
    assert_eq!(acf.rows.len(), 3);
    assert_eq!(acf.rows[1][0], "1");
    assert_eq!(acf.rows[2][0], "2");
}

#[test]
fn sort_by_atom_groups_stably() {
    assert_eq!(sort_by_atom(&vec![]), Vec::<usize>::new());
    assert_eq!(sort_by_atom(&vec![1, 0, 0]), vec![1, 2, 0]);
    assert_eq!(sort_by_atom(&vec![2, 2, 0]), vec![2, 0, 1]);
    assert_eq!(sort_by_atom(&vec![0, 0, 0]), vec![0, 1, 2]);
}
