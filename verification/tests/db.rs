use rustlab::db::csv::{guess_db_type, split_csv_line, write_csv_line};
use rustlab::db::repl::{command_table, dispatch, get_mode, read_line_step, usage_args, Dispatch, LineStep, Mode};
use rustlab::db::select::{Order, OrderBy};
use rustlab::db::types::{ColId, DbType, RowId};

#[test]
fn example_assert() {
    assert_eq!(4, 4);
    assert!(vec!['x'].len() == 1)
}

fn strings(v: &[&str]) -> Vec<String> {
    v.iter().map(|s| s.to_string()).collect()
}

#[test]
fn csv_write_quotes_only_when_needed() {
    assert_eq!(write_csv_line(&strings(&["a", "b", "c"])), "a,b,c\n");
    assert_eq!(write_csv_line(&strings(&["a,b", "x"])), "\"a,b\",x\n");
    assert_eq!(write_csv_line(&strings(&["say \"hi\""])), "\"say \"\"hi\"\"\"\n");
    assert_eq!(write_csv_line(&strings(&["two\nlines", ""])), "\"two\nlines\",\n");
    assert_eq!(write_csv_line(&[]), "\n");
}

#[test]
fn csv_split_fields() {
    assert_eq!(split_csv_line("a,b,c"), strings(&["a", "b", "c"]));
    assert_eq!(split_csv_line("\"a,b\",x"), strings(&["a,b", "x"]));
    assert_eq!(split_csv_line("\"say \"\"hi\"\"\""), strings(&["say \"hi\""]));
    assert_eq!(split_csv_line(""), strings(&[""]));
    assert_eq!(split_csv_line(",,"), strings(&["", "", ""]));
    assert_eq!(split_csv_line("ab\"c\"d"), strings(&["abcd"]));
}

#[test]
fn csv_round_trip() {
    let cases: Vec<Vec<String>> = vec![
        strings(&["plain", "with,comma", "with \"quote\"", "", "new\nline", "é🦀"]),
        strings(&[""]),
        strings(&["\"", ",", "\"\""]),
    ];
    for fields in cases {
        let line = write_csv_line(&fields);
        let text = line.strip_suffix('\n').unwrap();
        assert_eq!(split_csv_line(text), fields);
    }
}

fn guess(s: &str) -> Option<DbType> {
    guess_db_type(s, s.trim().parse::<f64>().is_ok())
}

#[test]
fn guessing_types() {
    assert_eq!(guess(""), None);
    assert_eq!(guess("   "), None);
    assert_eq!(guess("true"), Some(DbType::Boolean));
    assert_eq!(guess(" No "), Some(DbType::Boolean));
    assert_eq!(guess("YES"), Some(DbType::Boolean));
    assert_eq!(guess("42"), Some(DbType::Integer));
    assert_eq!(guess("-9223372036854775808"), Some(DbType::Integer));
    assert_eq!(guess("9223372036854775808"), Some(DbType::Double));
    assert_eq!(guess("+7"), Some(DbType::Integer));
    assert_eq!(guess("3.5"), Some(DbType::Double));
    assert_eq!(guess("hello"), None);
}

#[test]
fn prompt_modes_and_dispatch() {
    assert_eq!(get_mode(false), Mode::TopLevel);
    assert_eq!(get_mode(true), Mode::TableOpen);
    let cmds = command_table();
    assert_eq!(cmds.len(), 17);
    assert_eq!(dispatch(&cmds, Mode::TopLevel, "help", 0), Dispatch::Run(0));
    assert_eq!(dispatch(&cmds, Mode::TopLevel, "open", 1), Dispatch::Run(8));
    assert_eq!(dispatch(&cmds, Mode::TopLevel, "o", 1), Dispatch::Run(8));
    assert_eq!(dispatch(&cmds, Mode::TopLevel, "open", 0), Dispatch::Usage(8));
    assert_eq!(dispatch(&cmds, Mode::TableOpen, "open", 1), Dispatch::Unavailable(Mode::TopLevel));
    assert_eq!(dispatch(&cmds, Mode::TopLevel, "s", 0), Dispatch::Unavailable(Mode::TableOpen));
    assert_eq!(dispatch(&cmds, Mode::TableOpen, "add-col", 2), Dispatch::Run(15));
    assert_eq!(dispatch(&cmds, Mode::TopLevel, "frobnicate", 0), Dispatch::Unrecognized);
}

#[test]
fn handles_and_orders() {
    let r = RowId { idx: 3 };
    assert_eq!(r, RowId { idx: 3 });
    let c = ColId { idx: 1, ty: DbType::Integer };
    let o = OrderBy { col: c, order: Order::Descending };
    assert_eq!(o.order, Order::Descending);
    assert_eq!(DbType::Double.name(), "Double");
}

use rustlab::db::col::Col;

#[test]
fn column_nulls_and_values() {
    let id = ColId { idx: 0, ty: DbType::Integer };
    let mut col: Col<i64> = Col::new(id, "age".to_string());
    assert_eq!(col.id(), id);
    assert_eq!(col.name(), "age");
    assert!(col.iter().is_empty());
    col.extend_with_null(2);
    assert_eq!(col.iter(), vec![None, None, None]);
    col.extend_with_null(1);
    assert_eq!(col.iter().len(), 3);
    col.extend_with_null(4);
    assert_eq!(col.iter().len(), 5);
    assert!(col.iter().iter().all(|c| c.is_none()));
}

use rustlab::db::repl::{parse_count, parse_db_type};
use rustlab::db::table::Table;

#[test]
fn table_columns_and_rows() {
    let mut t = Table::default();
    assert_eq!(t.num_rows(), 0);
    assert_eq!(t.num_cols(), 0);
    assert_eq!(t.col_id("name"), None);
    let name = t.add_col("name", DbType::String);
    assert_eq!(name, ColId { idx: 0, ty: DbType::String });
    let age = t.add_col("age", DbType::Integer);
    assert_eq!(age, ColId { idx: 0, ty: DbType::Integer });
    let nick = t.add_col("nick", DbType::String);
    assert_eq!(nick, ColId { idx: 1, ty: DbType::String });
    // adding an existing column hands back its handle
    assert_eq!(t.add_col("age", DbType::Integer), age);
    assert_eq!(t.num_cols(), 3);
    assert_eq!(t.col_id("nick"), Some(nick));
    assert_eq!(t.col_type("age"), Some(DbType::Integer));
    assert_eq!(t.col_type("height"), None);
    assert_eq!(t.add_row(), RowId { idx: 0 });
    assert_eq!(t.add_row(), RowId { idx: 1 });
    assert_eq!(t.num_rows(), 2);
    assert_eq!(t.get_row_by_index(1), Some(RowId { idx: 1 }));
    assert_eq!(t.get_row_by_index(2), None);
    let copy = t.clone();
    assert_eq!(copy.num_rows(), 2);
    assert_eq!(copy.col_id("name"), Some(name));
}

#[test]
fn type_words_and_counts() {
    assert_eq!(parse_db_type("s"), Some(DbType::String));
    assert_eq!(parse_db_type("STRING"), Some(DbType::String));
    assert_eq!(parse_db_type("Int"), Some(DbType::Integer));
    assert_eq!(parse_db_type("boolean"), Some(DbType::Boolean));
    assert_eq!(parse_db_type("d"), Some(DbType::Double));
    assert_eq!(parse_db_type("float"), None);
    assert_eq!(parse_count("12"), Some(12));
    assert_eq!(parse_count("+3"), Some(3));
    assert_eq!(parse_count("0"), Some(0));
    assert_eq!(parse_count(""), None);
    assert_eq!(parse_count("+"), None);
    assert_eq!(parse_count("-1"), None);
    assert_eq!(parse_count("1x"), None);
    assert_eq!(parse_count("18446744073709551615"), Some(usize::MAX));
    assert_eq!(parse_count("18446744073709551616"), None);
}

#[test]
fn usage_lines_bracket_the_arguments() {
    let cmds = command_table();
    assert_eq!(usage_args(&cmds[0]), "");
    assert_eq!(usage_args(&cmds[4]), "[TABLE]");
    assert_eq!(usage_args(&cmds[6]), "[SRC] [DST]");
    assert_eq!(usage_args(&cmds[15]), "[NAME] [TYPE]");
    assert!(cmds[0].is_available(Mode::TopLevel) && cmds[0].is_available(Mode::TableOpen));
    assert!(cmds[3].is_available(Mode::TopLevel) && !cmds[3].is_available(Mode::TableOpen));
    assert!(!cmds[11].is_available(Mode::TopLevel) && cmds[11].is_available(Mode::TableOpen));
}

#[test]
fn column_storage_puts_gets_and_takes() {
    let id = ColId { idx: 0, ty: DbType::String };
    let mut col: Col<String> = Col::new(id, "city".to_string());
    assert_eq!(col.get(RowId { idx: 0 }), None);
    assert_eq!(col.put(RowId { idx: 2 }, "Oslo".to_string()), None);
    assert_eq!(col.iter(), vec![None, None, Some(&"Oslo".to_string())]);
    assert_eq!(col.get(RowId { idx: 2 }), Some(&"Oslo".to_string()));
    assert_eq!(col.get(RowId { idx: 1 }), None);
    assert_eq!(col.get(RowId { idx: 7 }), None);
    assert_eq!(col.put(RowId { idx: 2 }, "Rome".to_string()), Some("Oslo".to_string()));
    if let Some(v) = col.get_mut(RowId { idx: 2 }) {
        v.push_str(", Italy");
    }
    assert_eq!(col.get(RowId { idx: 2 }), Some(&"Rome, Italy".to_string()));
    assert!(col.get_mut(RowId { idx: 0 }).is_none());
    assert_eq!(col.take(RowId { idx: 2 }), Some("Rome, Italy".to_string()));
    assert_eq!(col.take(RowId { idx: 2 }), None);
    assert_eq!(col.take(RowId { idx: 9 }), None);
    assert_eq!(col.iter(), vec![None, None, None]);
}

use rustlab::db::types::{DbMut, DbRef, DbVal};

#[test]
fn values_and_references() {
    let mut v = DbVal::from(3i64);
    assert_eq!(v.ty(), DbType::Integer);
    assert_eq!(v.as_ref(), DbRef::Integer(&3));
    if let DbMut::Integer(x) = v.as_mut() {
        *x = 9;
    }
    assert_eq!(v, DbVal::Integer(9));
    assert_eq!(v.as_ref().to_owned(), DbVal::Integer(9));
    let s = DbVal::from("hi");
    assert_eq!(s, DbVal::String("hi".to_string()));
    assert_eq!(DbVal::from(true).into_boolean(), true);
    assert_eq!(DbVal::from("x".to_string()).into_string(), "x");
    assert_eq!(DbVal::Double(1.5f64.to_bits()).into_double(), 1.5f64.to_bits());
    assert_eq!(DbVal::Integer(-4).into_integer(), -4);
}

#[test]
fn table_storage_puts_gets_and_takes() {
    let mut t = Table::default();
    let name = t.add_col("name", DbType::String);
    let age = t.add_col("age", DbType::Integer);
    let r0 = t.add_row();
    let r1 = t.add_row();
    assert_eq!(t.get((r0, name)), None);
    assert_eq!(t.put((r0, name), DbVal::from("Ada")), None);
    assert_eq!(t.put((r1, age), DbVal::Integer(36)), None);
    assert_eq!(t.get((r0, name)), Some(DbRef::String(&"Ada".to_string())));
    assert_eq!(t.get((r1, age)), Some(DbRef::Integer(&36)));
    assert_eq!(t.get((r0, age)), None);
    assert_eq!(t.put((r1, age), DbVal::Integer(37)), Some(DbVal::Integer(36)));
    assert_eq!(t.take((r1, age)), Some(DbVal::Integer(37)));
    assert_eq!(t.get((r1, age)), None);
    assert_eq!(t.take((r1, age)), None);
    assert_eq!(t.get((r0, name)), Some(DbRef::String(&"Ada".to_string())));
}

use rustlab::db::order::{compare_values, total_order_key, Relation};
use rustlab::db::select::{Filter, Select};

fn people() -> (Table, ColId, ColId, ColId) {
    let mut t = Table::default();
    let name = t.add_col("name", DbType::String);
    let age = t.add_col("age", DbType::Integer);
    let score = t.add_col("score", DbType::Double);
    let rows: Vec<(&str, Option<i64>, f64)> = vec![
        ("Ada", Some(36), 4.5),
        ("Bob", None, -1.0),
        ("Cy", Some(25), 4.5),
        ("Dee", Some(36), 0.0),
        ("Eve", Some(19), 9.25),
    ];
    for (n, a, s) in rows {
        let r = t.add_row();
        t.put((r, name), DbVal::from(n));
        if let Some(a) = a {
            t.put((r, age), DbVal::Integer(a));
        }
        t.put((r, score), DbVal::Double(s.to_bits()));
    }
    (t, name, age, score)
}

fn names_of(t: &Table, name: ColId, rows: &[RowId]) -> Vec<String> {
    rows.iter()
        .map(|r| match t.get((*r, name)) {
            Some(DbRef::String(s)) => s.clone(),
            _ => String::from("?"),
        })
        .collect()
}

#[test]
fn filters_keep_matching_rows() {
    let (t, name, age, score) = people();
    let all = |f: Filter| {
        let (_, rows) = t.select_helper(Select::new(vec![name]).filter(f));
        names_of(&t, name, &rows)
    };
    assert_eq!(all(Filter::is_null(age)), vec!["Bob"]);
    assert_eq!(all(Filter::is_non_null(age)).len(), 4);
    assert_eq!(all(Filter::eq(age, 36i64)), vec!["Ada", "Dee"]);
    assert_eq!(all(Filter::ne(age, 36i64)), vec!["Bob", "Cy", "Eve"]);
    // a null is below every value
    assert_eq!(all(Filter::lt(age, 20i64)), vec!["Bob", "Eve"]);
    assert_eq!(all(Filter::ge(age, 25i64)), vec!["Ada", "Cy", "Dee"]);
    assert_eq!(all(Filter::gt(name, DbVal::from("Cy"))), vec!["Dee", "Eve"]);
    assert_eq!(all(Filter::le(score, DbVal::Double(0.0f64.to_bits()))), vec!["Bob", "Dee"]);
    // values of another type are neither equal nor ordered
    assert_eq!(all(Filter::eq(age, DbVal::from("36"))), Vec::<String>::new());
    assert_eq!(all(Filter::ne(age, DbVal::from("36"))).len(), 5);
    let f = Filter::eq(age, 36i64).and(Filter::gt(score, DbVal::Double(1.0f64.to_bits())));
    assert_eq!(all(f), vec!["Ada"]);
    let f = Filter::is_null(age).or(Filter::eq(name, DbVal::from("Eve")));
    assert_eq!(all(f), vec!["Bob", "Eve"]);
    let f = Filter::eq(age, 36i64).xor(Filter::eq(score, DbVal::Double(4.5f64.to_bits())));
    assert_eq!(all(f), vec!["Cy", "Dee"]);
    assert_eq!(all(Filter::Not(Box::new(Filter::is_null(age)))).len(), 4);
    // two filters on one query must both hold
    let (_, rows) = t.select_helper(
        Select::new(vec![name]).filter(Filter::ge(age, 20i64)).filter(Filter::lt(age, 30i64)),
    );
    assert_eq!(names_of(&t, name, &rows), vec!["Cy"]);
}

#[test]
fn orderings_sort_rows_first_decides() {
    let (t, name, age, score) = people();
    let q = Select::new(vec![name, age]).order_by(age, Order::Descending).order_by(name, Order::Ascending);
    let (cols, rows) = t.select_helper(q);
    assert_eq!(cols, vec![name, age]);
    assert_eq!(names_of(&t, name, &rows), vec!["Ada", "Dee", "Cy", "Eve", "Bob"]);
    let (_, rows) = t.select_helper(Select::new(vec![name]).order_by(score, Order::Ascending));
    // ties keep table order
    assert_eq!(names_of(&t, name, &rows), vec!["Bob", "Dee", "Ada", "Cy", "Eve"]);
    let view = t.select(Select::all(&t).filter(Filter::is_non_null(age)).order_by(age, Order::Ascending));
    assert_eq!(view.iter_col_ids(), vec![name, age, score]);
    assert_eq!(names_of(&t, name, &view.iter_row_ids()), vec!["Eve", "Cy", "Ada", "Dee"]);
    assert_eq!(view.iter_rows().len(), 4);
    assert_eq!(view.iter_cols().len(), 3);
    assert_eq!(view.iter_cols()[1].name(), "age");
}

#[test]
fn values_compare_by_type() {
    let s = |x: &str| DbVal::from(x);
    assert_eq!(compare_values(&s("apple"), &s("apricot")), Some(Relation::Less));
    assert_eq!(compare_values(&s("b"), &s("abc")), Some(Relation::Greater));
    assert_eq!(compare_values(&s("ab"), &s("ab")), Some(Relation::Equal));
    assert_eq!(compare_values(&s("ab"), &s("abc")), Some(Relation::Less));
    assert_eq!(compare_values(&DbVal::Integer(-3), &DbVal::Integer(2)), Some(Relation::Less));
    assert_eq!(compare_values(&DbVal::Boolean(true), &DbVal::Boolean(false)), Some(Relation::Greater));
    assert_eq!(compare_values(&DbVal::Integer(1), &DbVal::Boolean(true)), None);
    let doubles = [f64::NEG_INFINITY, -2.5, -0.0, 0.0, 1e-300, 3.0, f64::INFINITY];
    for (i, a) in doubles.iter().enumerate() {
        for (j, b) in doubles.iter().enumerate() {
            let expected = a.total_cmp(b);
            let got = compare_values(&DbVal::Double(a.to_bits()), &DbVal::Double(b.to_bits()));
            let want = match expected {
                std::cmp::Ordering::Less => Relation::Less,
                std::cmp::Ordering::Equal => Relation::Equal,
                std::cmp::Ordering::Greater => Relation::Greater,
            };
            assert_eq!(got, Some(want), "{i} {j}");
        }
    }
    assert!(total_order_key((-1.0f64).to_bits()) < total_order_key(0.5f64.to_bits()));
}

use rustlab::db::csv::csv_document;
use rustlab::db::load::{from_csv_lines, has_type_conflict, load_csv_lines, load_warnings, CsvError};
use rustlab::db::prompt::{
    filter_line, filter_value, make_filter, parse_column_list, parse_order_word, select_columns,
    split_filter_line, FilterInputError, FilterOp, SelectInputError,
};
use rustlab::db::render::render_grid;

fn lines(v: &[&str]) -> Vec<String> {
    v.iter().map(|s| s.to_string()).collect()
}

fn parse_double(s: &str) -> Option<u64> {
    s.parse::<f64>().ok().map(f64::to_bits)
}

#[test]
fn grids_pad_each_column_to_its_widest_entry() {
    let names = lines(&["id", "name"]);
    let rows = vec![lines(&["1", "Ada"]), lines(&["22", "NULL"])];
    let text = render_grid(&names, &rows);
    assert_eq!(
        text,
        " | id | name | \n-+----+------+-\n | 1  | Ada  | \n | 22 | NULL | \n"
    );
    assert_eq!(render_grid(&Vec::new(), &Vec::new()), " | \n-+-\n");
}

#[test]
fn csv_documents_have_a_header_then_rows() {
    let names = lines(&["a", "b,c"]);
    let rows = vec![lines(&["1", "x\"y"]), lines(&["", "z"])];
    assert_eq!(csv_document(&names, &rows), "a,\"b,c\"\n1,\"x\"\"y\"\n,z\n");
    assert_eq!(csv_document(&Vec::new(), &rows), "");
    assert_eq!(csv_document(&names, &Vec::new()), "a,\"b,c\"\n");
}

#[test]
fn tables_load_from_csv_lines() {
    let (t, n) = from_csv_lines(
        &lines(&["name, age ,ok,score", "Ada,36,yes,4.5", "", "  ", "Bob,x,NO,", "Cy,,maybe,2"]),
        &parse_double,
    )
    .unwrap();
    assert_eq!(n, 3);
    assert_eq!(t.num_rows(), 3);
    assert_eq!(t.num_cols(), 4);
    assert_eq!(t.col_type("name"), Some(DbType::String));
    assert_eq!(t.col_type(" age "), Some(DbType::Integer));
    assert_eq!(t.col_type("ok"), Some(DbType::Boolean));
    assert_eq!(t.col_type("score"), Some(DbType::Double));
    let (names, grid) = t.grid();
    assert_eq!(names, lines(&["name", " age ", "ok", "score"]));
    assert_eq!(
        grid[0],
        vec![
            Some(DbVal::from("Ada")),
            Some(DbVal::Integer(36)),
            Some(DbVal::Boolean(true)),
            Some(DbVal::Double(4.5f64.to_bits()))
        ]
    );
    assert_eq!(grid[1], vec![Some(DbVal::from("Bob")), None, Some(DbVal::Boolean(false)), None]);
    assert_eq!(grid[2], vec![Some(DbVal::from("Cy")), None, None, Some(DbVal::Double(2.0f64.to_bits()))]);
    assert_eq!(t.empty_note(), None);
    let err = from_csv_lines(&lines(&["a,b", "1,2", "3"]), &parse_double);
    assert!(matches!(err, Err(CsvError::FieldCount { row: 2, found: 1, expected: 2 })));
    let (t, n) = from_csv_lines(&lines(&["a,b"]), &parse_double).unwrap();
    assert_eq!((n, t.num_rows(), t.num_cols()), (0, 0, 2));
    assert_eq!(t.empty_note(), Some("<no rows>"));
    let (t, n) = from_csv_lines(&Vec::new(), &parse_double).unwrap();
    assert_eq!((n, t.num_cols()), (0, 0));
    assert_eq!(t.empty_note(), Some("<empty table>"));
}

#[test]
fn loading_warns_of_fields_that_do_not_read_as_their_type() {
    let ls = lines(&["name, age ,ok,score", "Ada,36,yes,4.5", "", "Bob,x,NO,", "Cy,,maybe,zz", "a,b", "Di,y,no,1"]);
    let w = load_warnings(&ls, &parse_double);
    assert_eq!(
        w,
        vec![
            (DbType::Integer, "x".to_string()),
            (DbType::Boolean, "maybe".to_string()),
            (DbType::Double, "zz".to_string())
        ]
    );
    assert!(load_warnings(&lines(&["a", "1", "2"]), &parse_double).is_empty());
    assert!(load_warnings(&Vec::new(), &parse_double).is_empty());
}

#[test]
fn typed_conditions_split_and_parse() {
    let (c, op, v) = split_filter_line("age >= 30").unwrap();
    assert_eq!((c.as_str(), op, v.as_str()), ("age", FilterOp::Ge, "30"));
    let (c, op, v) = split_filter_line(" name==Ada Lovelace ").unwrap();
    assert_eq!((c.as_str(), op, v.as_str()), ("name", FilterOp::Eq, "Ada Lovelace"));
    assert_eq!(split_filter_line("x < 2").unwrap().1, FilterOp::Lt);
    assert_eq!(split_filter_line("x<=2").unwrap().1, FilterOp::Le);
    assert_eq!(split_filter_line("x != null").unwrap().1, FilterOp::Ne);
    assert_eq!(split_filter_line("x > y").unwrap().1, FilterOp::Gt);
    assert_eq!(split_filter_line("age 30").unwrap_err(), FilterInputError::NoOperator);
    assert_eq!(split_filter_line("age = 30").unwrap_err(), FilterInputError::UnsupportedOperator);
    assert_eq!(filter_value("NuLL", None), None);
    assert_eq!(filter_value("true", None), Some(DbVal::Boolean(true)));
    assert_eq!(filter_value("True", None), Some(DbVal::from("True")));
    assert_eq!(filter_value("-12", parse_double("-12")), Some(DbVal::Integer(-12)));
    assert_eq!(filter_value("1.5", parse_double("1.5")), Some(DbVal::Double(1.5f64.to_bits())));
    assert_eq!(filter_value("Ada", None), Some(DbVal::from("Ada")));
    let col = ColId { idx: 0, ty: DbType::Integer };
    assert!(matches!(make_filter(col, FilterOp::Eq, None), Ok(Filter::IsNull(c)) if c == col));
    assert!(matches!(make_filter(col, FilterOp::Ne, None), Ok(Filter::IsNonNull(_))));
    assert!(matches!(make_filter(col, FilterOp::Gt, Some(DbVal::Integer(3))), Ok(Filter::Gt(_, DbVal::Integer(3)))));
    assert!(matches!(make_filter(col, FilterOp::Lt, None), Err(FilterInputError::InvalidOperatorOrValue)));
}

#[test]
fn column_lists_and_directions() {
    assert_eq!(parse_column_list(" a, b ,,c "), lines(&["a", "b", "c"]));
    assert_eq!(parse_column_list(""), Vec::<String>::new());
    assert_eq!(parse_order_word(" ASC "), Some(Order::Ascending));
    assert_eq!(parse_order_word("a"), Some(Order::Ascending));
    assert_eq!(parse_order_word("Descending"), Some(Order::Descending));
    assert_eq!(parse_order_word("d"), Some(Order::Descending));
    assert_eq!(parse_order_word("up"), None);
}

#[test]
fn repeated_header_names_share_a_column() {
    let ok = lines(&["a,a,b", "x,y,1", "z,,2"]);
    assert!(!has_type_conflict(&ok, &parse_double));
    let (t, n) = from_csv_lines(&ok, &parse_double).unwrap();
    assert_eq!(n, 2);
    assert_eq!(t.num_cols(), 2);
    let (names, grid) = t.grid();
    assert_eq!(names, lines(&["a", "b"]));
    // a later field of the same name wins; a blank one stores nothing
    assert_eq!(grid[0], vec![Some(DbVal::from("y")), Some(DbVal::Integer(1))]);
    assert_eq!(grid[1], vec![Some(DbVal::from("z")), Some(DbVal::Integer(2))]);
    let clash = lines(&["a,a", "1,x"]);
    assert!(has_type_conflict(&clash, &parse_double));
    assert!(!has_type_conflict(&lines(&["a,a", "1,x,3"]), &parse_double));
    assert!(!has_type_conflict(&Vec::new(), &parse_double));
}

#[test]
fn row_and_column_views() {
    let (mut t, name, age, score) = people();
    let r1 = RowId { idx: 1 };
    {
        let mut row = t.row_mut(r1);
        assert_eq!(row.get(name), Some(DbRef::String(&"Bob".to_string())));
        assert_eq!(row.put(age, DbVal::Integer(50)), None);
        assert_eq!(row.take(score), Some(DbVal::Double((-1.0f64).to_bits())));
    }
    assert_eq!(t.get((r1, age)), Some(DbRef::Integer(&50)));
    assert_eq!(t.get((r1, score)), None);
    let row = t.row(r1);
    let cells = row.iter();
    assert_eq!(cells.len(), 3);
    assert_eq!(cells[0].0.id(), name);
    assert_eq!(cells[1].1, Some(DbRef::Integer(&50)));
    assert_eq!(cells[2].1, None);
    let col = t.col(age);
    assert_eq!(col.name(), "age");
    assert_eq!(col.get(RowId { idx: 0 }), Some(DbRef::Integer(&36)));
    assert_eq!(col.iter().len(), 5);
    assert_eq!(col.iter()[1], Some(DbRef::Integer(&50)));
    let cm = t.col_mut(name);
    assert_eq!(cm.id(), name);
    assert_eq!(cm.name(), "name");
    assert_eq!(cm.get(RowId { idx: 4 }), Some(DbRef::String(&"Eve".to_string())));
    let mut ages = t.col_mut(age);
    assert_eq!(ages.put(RowId { idx: 2 }, DbVal::Integer(26)), Some(DbVal::Integer(25)));
    assert_eq!(ages.take(RowId { idx: 2 }), Some(DbVal::Integer(26)));
    assert_eq!(ages.take(RowId { idx: 2 }), None);
    assert_eq!(t.get((RowId { idx: 2 }, age)), None);
    let view = t.select_mut(Select::new(vec![name]).filter(Filter::gt(age, 40i64)));
    let ro = view.as_view();
    assert_eq!(names_of(ro.source_table(), name, &ro.iter_row_ids()), vec!["Bob"]);
}

use rustlab::db::catalog::{Catalog, CatalogError};

#[test]
fn edits_through_get_mut_stay_in_the_catalog() {
    let mut c = Catalog::new();
    assert_eq!(c.create("a"), Ok(()));
    assert_eq!(c.create("b"), Ok(()));
    assert_eq!(c.create("c"), Ok(()));
    c.get_mut("b").unwrap().add_col("x", DbType::Integer);
    c.get_mut("b").unwrap().add_col("y", DbType::Boolean);
    assert_eq!(c.len(), 3);
    assert_eq!(c.get("a").unwrap().num_cols(), 0);
    assert_eq!(c.get("b").unwrap().num_cols(), 2);
    assert_eq!(c.get("c").unwrap().num_cols(), 0);
    let names: Vec<&str> = c.iter().iter().map(|(n, _)| *n).collect();
    assert_eq!(names, vec!["a", "b", "c"]);
}

#[test]
fn the_tables_of_a_session() {
    let mut c = Catalog::new();
    assert_eq!(c.len(), 0);
    assert_eq!(c.create("a"), Ok(()));
    assert_eq!(c.create("a"), Err(CatalogError::AlreadyExists));
    assert_eq!(CatalogError::AlreadyExists.message(), "table already exists");
    assert!(c.contains("a"));
    c.get_mut("a").unwrap().add_col("x", DbType::Integer);
    assert_eq!(c.get("a").unwrap().num_cols(), 1);
    assert_eq!(c.copy("a", "a"), Err(CatalogError::SameName));
    assert_eq!(c.copy("z", "b"), Err(CatalogError::SourceMissing));
    assert_eq!(c.copy("a", "b"), Ok(()));
    assert_eq!(c.get("b").unwrap().num_cols(), 1);
    assert_eq!(c.copy("a", "b"), Err(CatalogError::DestinationExists));
    assert_eq!(c.rename("b", "a"), Err(CatalogError::DestinationExists));
    assert_eq!(c.rename("b", "c"), Ok(()));
    assert!(!c.contains("b") && c.contains("c"));
    assert_eq!(c.rename("b", "d"), Err(CatalogError::SourceMissing));
    assert_eq!(c.remove("a"), Ok(()));
    assert_eq!(c.remove("a"), Err(CatalogError::DoesNotExist));
    assert!(c.open("e"));
    assert!(!c.open("e"));
    let names: Vec<&str> = c.iter().iter().map(|(n, _)| *n).collect();
    assert_eq!(names, vec!["c", "e"]);
    c.insert("f".to_string(), Table::default());
    assert_eq!(c.len(), 3);
    assert!(c.get("zz").is_none());
    assert!(c.get_mut("zz").is_none());
}

#[test]
fn checked_loads_refuse_type_clashes() {
    assert!(load_csv_lines(&lines(&["a,a", "1,x"]), &parse_double).is_none());
    let (t, n) = load_csv_lines(&lines(&["a,b", "1,x"]), &parse_double).unwrap().unwrap();
    assert_eq!((n, t.num_rows(), t.num_cols()), (1, 1, 2));
    let err = load_csv_lines(&lines(&["a,b", "1,2", "3"]), &parse_double).unwrap();
    assert!(matches!(err, Err(CsvError::FieldCount { row: 2, found: 1, expected: 2 })));
}

#[test]
fn added_rows_are_null() {
    let mut t = Table::new();
    let c = t.add_col("x", DbType::Integer);
    let r0 = t.add_row();
    assert_eq!(t.put((r0, c), DbVal::Integer(7)), None);
    let r1 = t.add_row();
    assert_eq!(r1, RowId { idx: 1 });
    assert!(t.get((r1, c)).is_none());
    assert_eq!(t.get((r0, c)).map(|v| v.to_owned()), Some(DbVal::Integer(7)));
    assert_eq!(t.put((r0, c), DbVal::Integer(8)), Some(DbVal::Integer(7)));
}

#[test]
fn prompt_lines_split_into_a_command_and_its_arguments() {
    assert_eq!(read_line_step("", true), LineStep::CloseTable);
    assert_eq!(read_line_step("", false), LineStep::Quit);
    assert_eq!(read_line_step("  \t\n", false), LineStep::Skip);
    assert_eq!(
        read_line_step("  LoAd  a.csv\tpeople \n", false),
        LineStep::Command("load".to_string(), vec!["a.csv".to_string(), "people".to_string()])
    );
    assert_eq!(read_line_step("Print\n", true), LineStep::Command("print".to_string(), Vec::new()));
}

#[test]
fn column_lists_and_typed_conditions_resolve_against_a_table() {
    let mut t = Table::new();
    let age = t.add_col("age", DbType::Integer);
    let name = t.add_col("name", DbType::String);
    assert_eq!(select_columns(&t, "  "), Ok((vec![age, name], Vec::new())));
    assert_eq!(select_columns(&t, " name, x ,age"), Ok((vec![name, age], vec!["x".to_string()])));
    assert_eq!(select_columns(&t, " , ,"), Err(SelectInputError::NoColumns));
    assert_eq!(
        select_columns(&t, "x,y"),
        Err(SelectInputError::NoValidColumns(vec!["x".to_string(), "y".to_string()]))
    );
    assert_eq!(select_columns(&Table::new(), ""), Err(SelectInputError::NoColumns));
    assert_eq!(filter_line(&t, "age >= 30", &parse_double), Ok(Filter::Ge(age, DbVal::Integer(30))));
    assert_eq!(filter_line(&t, "name == null", &parse_double), Ok(Filter::IsNull(name)));
    assert_eq!(filter_line(&t, "height > 3", &parse_double), Err(FilterInputError::UnknownColumn));
    assert_eq!(filter_line(&t, "age 30", &parse_double), Err(FilterInputError::NoOperator));
    assert_eq!(filter_line(&t, "age = 30", &parse_double), Err(FilterInputError::UnsupportedOperator));
    assert_eq!(filter_line(&t, "age > null", &parse_double), Err(FilterInputError::InvalidOperatorOrValue));
}

#[test]
fn integer_texts_read_to_the_edges_of_i64() {
    assert_eq!(filter_value("9223372036854775807", None), Some(DbVal::Integer(i64::MAX)));
    assert_eq!(filter_value("-9223372036854775808", None), Some(DbVal::Integer(i64::MIN)));
    assert_eq!(filter_value("+5", None), Some(DbVal::Integer(5)));
    assert_eq!(filter_value("-0", None), Some(DbVal::Integer(0)));
    assert_eq!(filter_value("9223372036854775808", None), Some(DbVal::from("9223372036854775808")));
    assert_eq!(filter_value("-", None), Some(DbVal::from("-")));
    assert_eq!(filter_value("12a", None), Some(DbVal::from("12a")));
}
