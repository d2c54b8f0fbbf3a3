use migratour::catalog::{
    filter_migration_file, migration_name, new_migration_names, next_serial, sort_migration_files,
    Direction,
};
use migratour::errors::MigError;
use migratour::serial::{parse_serial, serial_string};

fn strings(names: &[&str]) -> Vec<String> {
    names.iter().map(|s| s.to_string()).collect()
}

#[test]
fn filter_keeps_up_files_only() {
    let files = strings(&[
        "0001_init.up.sql",
        "0001_init.down.sql",
        "0002_add_col.up.sql",
        "0002_add_col.down.sql",
    ]);
    let ups = filter_migration_file("up", files.clone());
    assert_eq!(ups, strings(&["0001_init.up.sql", "0002_add_col.up.sql"]));
    let downs = filter_migration_file("down", files);
    assert_eq!(downs, strings(&["0001_init.down.sql", "0002_add_col.down.sql"]));
}

#[test]
fn filter_is_case_insensitive() {
    let files = strings(&["0001_a.UP.sql", "0002_b.Up.sql", "0003_c.DOWN.sql"]);
    let ups = filter_migration_file("up", files);
    assert_eq!(ups, strings(&["0001_a.UP.sql", "0002_b.Up.sql"]));
}

#[test]
fn filter_drops_names_without_two_segments() {
    let files = strings(&["README", "up", "0001_a.up.sql"]);
    let ups = filter_migration_file("up", files);
    assert_eq!(ups, strings(&["0001_a.up.sql"]));
}

#[test]
fn sort_orders_by_serial_prefix() {
    let files = strings(&["0010_j.up.sql", "0002_b.up.sql", "0001_a.up.sql"]);
    let sorted = sort_migration_files(&files);
    assert_eq!(
        sorted,
        strings(&["0001_a.up.sql", "0002_b.up.sql", "0010_j.up.sql"])
    );
}

#[test]
fn parse_serial_reads_first_four_digits() {
    assert_eq!(parse_serial(&"0042_x.up.sql".to_string()), Ok(42));
    assert_eq!(parse_serial(&"9999".to_string()), Ok(9999));
    assert_eq!(parse_serial(&"0000_zero.up.sql".to_string()), Ok(0));
}

#[test]
fn parse_serial_rejects_bad_prefixes() {
    assert_eq!(
        parse_serial(&"12a4_x.up.sql".to_string()),
        Err(MigError::InvalidMigrationName)
    );
    assert_eq!(
        parse_serial(&"123".to_string()),
        Err(MigError::InvalidMigrationName)
    );
    assert_eq!(
        parse_serial(&"-123_x.up.sql".to_string()),
        Err(MigError::InvalidMigrationName)
    );
}

#[test]
fn next_serial_starts_at_one() {
    assert_eq!(next_serial(&Vec::new()), Ok(1));
}

#[test]
fn next_serial_is_one_above_the_largest() {
    let files = strings(&["0001_a.up.sql", "0001_a.down.sql", "0007_g.up.sql"]);
    assert_eq!(next_serial(&files), Ok(8));
}

#[test]
fn next_serial_rejects_an_unparsable_name() {
    let files = strings(&["0001_a.up.sql", "note.txt"]);
    assert_eq!(next_serial(&files), Err(MigError::InvalidMigrationName));
}

#[test]
fn new_pair_shares_serial_and_name() {
    let files = strings(&["0001_a.up.sql", "0001_a.down.sql"]);
    let (up, down) = new_migration_names(&files, &"add_col".to_string()).unwrap();
    assert_eq!(up, "0002_add_col.up.sql");
    assert_eq!(down, "0002_add_col.down.sql");
}

#[test]
fn new_serials_are_strictly_increasing_and_contiguous() {
    let mut files: Vec<String> = Vec::new();
    let mut serials: Vec<u32> = Vec::new();
    for name in ["init", "add_col", "drop_col"] {
        let (up, down) = new_migration_names(&files, &name.to_string()).unwrap();
        serials.push(parse_serial(&up).unwrap());
        files.push(up);
        files.push(down);
    }
    assert_eq!(serials, vec![1, 2, 3]);
}

#[test]
fn migration_name_strips_serial_and_suffix() {
    assert_eq!(
        migration_name(&"0001_init.up.sql".to_string(), Direction::Up),
        "init"
    );
    assert_eq!(
        migration_name(&"0002_add_col.down.sql".to_string(), Direction::Down),
        "add_col"
    );
}

#[test]
fn migration_name_of_a_short_name_is_empty() {
    assert_eq!(migration_name(&"abc".to_string(), Direction::Up), "");
}

#[test]
fn serial_string_zero_pads_to_four() {
    assert_eq!(serial_string(7), "0007");
    assert_eq!(serial_string(42), "0042");
    assert_eq!(serial_string(123), "0123");
    assert_eq!(serial_string(9999), "9999");
    assert_eq!(serial_string(10000), "10000");
}

#[test]
fn serials_can_outgrow_the_padding() {
    let files = strings(&["9999_last.up.sql", "9999_last.down.sql"]);
    let (up, down) = new_migration_names(&files, &"next".to_string()).unwrap();
    assert_eq!(up, "10000_next.up.sql");
    assert_eq!(down, "10000_next.down.sql");
}

#[test]
fn sorting_filtered_files_ascends_by_serial() {
    let all = strings(&[
        "0003_c.up.sql",
        "0001_a.up.sql",
        "0001_a.down.sql",
        "0002_b.up.sql",
        "0003_c.down.sql",
        "0002_b.down.sql",
    ]);
    let ups = sort_migration_files(&filter_migration_file("up", all));
    let serials: Vec<u32> = ups.iter().map(|f| parse_serial(f).unwrap()).collect();
    assert_eq!(serials, vec![1, 2, 3]);
}
