use graca::action::{global_action_for_key, tab_for_key, AppTab, InputKey, TableEvents};
use graca::command::Commands;
use graca::controller::{ResultsTableController, ScaleColumn, ScaleTableController};
use graca::export::{export, CsvExporter, ExportContent, TomlExporter, XlsxExporter};
use graca::grade::{Grade, GradeError};
use graca::input::NumberInputField;
use graca::model::ModelAction;
use graca::points::Points;
use graca::rows::GradingScaleTableRowData;

#[test]
fn test_grade_newtype() {
    let g = Grade::new(2).unwrap();
    assert_eq!(g.value(), 2);
    assert_eq!(g.next_better().unwrap().value(), 1);
    assert_eq!(g.next_worse().unwrap().value(), 3);
    assert_eq!(Grade::new(1).unwrap().next_better(), None);
    assert_eq!(Grade::new(6).unwrap().next_worse(), None);
    assert!(matches!(Grade::new(0), Err(GradeError::InvalidGrade(0))));
    assert!(matches!(Grade::new(7), Err(GradeError::InvalidGrade(7))));
}

#[test]
fn test_number_input_field() {
    let mut field = NumberInputField::new();
    field.enter_char('1');
    field.enter_char('0');
    field.enter_char('5');
    assert_eq!(field.get_input(), "105");
    assert_eq!(field.get_index(), 3);
    field.move_cursor_left();
    field.enter_char('2');
    assert_eq!(field.get_input(), "1025");
    field.delete_char();
    assert_eq!(field.get_input(), "105");
    // a non-digit is ignored
    field.enter_char('x');
    assert_eq!(field.get_input(), "105");
    assert_eq!(field.get_number(), 105);
    assert_eq!(field.get_input(), "");
    assert_eq!(field.get_index(), 0);
    assert!(!field.has_input());
}

#[test]
fn test_number_input_field_caps_length() {
    let mut field = NumberInputField::new();
    for _ in 0..12 {
        field.enter_char('9');
    }
    assert_eq!(field.get_input(), "999999999");
    assert_eq!(field.get_number(), 999_999_999);
}

#[test]
fn test_command_parse() {
    assert_eq!(
        Commands::parse("set-points 100"),
        Ok(Commands::SetMaxPoints(100))
    );
    assert_eq!(
        Commands::parse("  set-points   42  "),
        Ok(Commands::SetMaxPoints(42))
    );
    assert_eq!(
        Commands::parse("export-to /tmp/scale.csv"),
        Ok(Commands::Export("/tmp/scale.csv".to_string()))
    );
    assert_eq!(
        Commands::parse(""),
        Err("ERROR: invalid input nothing found.".to_string())
    );
    assert_eq!(
        Commands::parse("set-points abc"),
        Err("ERROR: could not parse points from 'abc' to u32.".to_string())
    );
    assert_eq!(
        Commands::parse("set-points a b"),
        Err("ERROR: could not parse points from 'a,b' to u32.".to_string())
    );
    assert_eq!(
        Commands::parse("frobnicate"),
        Err("ERROR: 'frobnicate' is an unknown command".to_string())
    );
}

#[test]
fn test_scale_table_controller() {
    let mut ctl = ScaleTableController::new();
    assert_eq!(ctl.selected_grade(), 1);
    ctl.next_row();
    ctl.next_row();
    assert_eq!(ctl.selected_grade(), 3);
    ctl.previous_row();
    ctl.previous_row();
    ctl.previous_row();
    assert_eq!(ctl.selected_grade(), 6); // wraps above the first row
    ctl.apply_table_event(TableEvents::NextRow);
    assert_eq!(ctl.selected_grade(), 1); // wraps below the last row
    ctl.apply_table_event(TableEvents::LastRow);
    assert_eq!(ctl.selected_grade(), 6);
    ctl.apply_table_event(TableEvents::FirstRow);
    assert_eq!(ctl.selected_grade(), 1);

    assert_eq!(ctl.handle_event(InputKey::Down), None);
    assert_eq!(ctl.handle_event(InputKey::Down), None);
    assert_eq!(
        ctl.handle_event(InputKey::Char('+')),
        Some(ModelAction::IncrementThreshold(3))
    );
    assert_eq!(
        ctl.handle_event(InputKey::Char('-')),
        Some(ModelAction::DecrementThreshold(3))
    );
    assert_eq!(
        ctl.handle_event(InputKey::PageUp),
        Some(ModelAction::IncrementMaxPoints)
    );
    assert_eq!(
        ctl.handle_event(InputKey::PageDown),
        Some(ModelAction::DecrementMaxPoints)
    );
    assert_eq!(ctl.handle_event(InputKey::Left), None);
    assert_eq!(ctl.column, Some(ScaleColumn::Min));
    assert_eq!(ctl.handle_event(InputKey::Right), None);
    assert_eq!(ctl.column, Some(ScaleColumn::Max));
    assert_eq!(ctl.handle_event(InputKey::Esc), None);
    assert_eq!(ctl.column, None);
    assert_eq!(ctl.handle_event(InputKey::Char('q')), None);
}

#[test]
fn test_results_table_controller() {
    let mut ctl = ResultsTableController::new();
    assert_eq!(ctl.handle_event(InputKey::Char('+')), None);
    ctl.set_names(vec!["Ada".to_string(), "Bea".to_string()]);
    assert_eq!(
        ctl.handle_event(InputKey::Char('+')),
        Some(ModelAction::IncrementStudentPoints("Ada".to_string()))
    );
    assert_eq!(ctl.handle_event(InputKey::Down), None);
    assert_eq!(
        ctl.handle_event(InputKey::Char('-')),
        Some(ModelAction::DecrementStudentPoints("Bea".to_string()))
    );
    // the cursor stops at the last row
    assert_eq!(ctl.handle_event(InputKey::Down), None);
    assert_eq!(ctl.selected, 1);
    assert_eq!(ctl.handle_event(InputKey::Up), None);
    assert_eq!(ctl.handle_event(InputKey::Up), None);
    assert_eq!(ctl.selected, 0);
}

#[test]
fn test_global_key_mapping() {
    assert_eq!(tab_for_key(InputKey::Char('1')), Some(AppTab::Scale));
    assert_eq!(tab_for_key(InputKey::FKey(2)), Some(AppTab::Result));
    assert_eq!(tab_for_key(InputKey::Char('3')), Some(AppTab::Report));
    assert_eq!(tab_for_key(InputKey::Char('x')), None);
    assert_eq!(
        global_action_for_key(InputKey::Char('I')),
        Some(ModelAction::SetScale(1))
    );
    assert_eq!(
        global_action_for_key(InputKey::Char('T')),
        Some(ModelAction::SetScale(2))
    );
    assert_eq!(
        global_action_for_key(InputKey::Char('L')),
        Some(ModelAction::SetScale(3))
    );
    assert_eq!(
        global_action_for_key(InputKey::Char('C')),
        Some(ModelAction::SetScale(4))
    );
    assert_eq!(
        global_action_for_key(InputKey::Char('.')),
        Some(ModelAction::ToggleHalfPoints)
    );
    assert_eq!(global_action_for_key(InputKey::Char('i')), None);
}

#[test]
fn test_app_tab_titles() {
    assert_eq!(AppTab::Scale.to_string(), "Scale [1]");
    assert_eq!(AppTab::Result.to_string(), "Result [2]");
    assert_eq!(AppTab::Report.to_string(), "Report [3]");
}

fn sample_rows() -> Vec<GradingScaleTableRowData> {
    vec![
        GradingScaleTableRowData::new(1, Points::from_whole(92), Points::from_whole(100), 92),
        GradingScaleTableRowData::new(2, Points::from_whole(81), Points::from_halves(183), 81),
    ]
}

#[test]
fn test_csv_exporter() {
    assert_eq!(
        CsvExporter::export(&sample_rows()),
        "1,92,100,92%\n2,81,91.5,81%\n"
    );
    assert_eq!(CsvExporter::export(&Vec::new()), "");
}

#[test]
fn test_toml_exporter() {
    assert_eq!(
        TomlExporter::export(&sample_rows()),
        "1 = \"(92,100,92%)\"\n2 = \"(81,91.5,81%)\"\n"
    );
}

#[test]
fn test_xlsx_exporter() {
    let grid = XlsxExporter::export(&sample_rows());
    assert_eq!(grid.len(), 3);
    assert_eq!(grid[0], ["Note", "min", "max", "%"]);
    assert_eq!(grid[1], ["1", "92", "100", "92%"]);
    assert_eq!(grid[2], ["2", "81", "91.5", "81%"]);
}

#[test]
fn test_export() {
    let data = vec![];
    assert!(matches!(export("test.csv", &data), Ok(ExportContent::Csv(_))));
    assert!(matches!(export("test.xlsx", &data), Ok(ExportContent::Xlsx(_))));
    assert!(matches!(export("dir.d/test.toml", &data), Ok(ExportContent::Toml(_))));
    match export("test.txt", &data) {
        Err(e) => assert_eq!(e.msg(), "File type not supported."),
        Ok(_) => panic!("an unknown extension must be refused"),
    }
    assert!(export("test", &data).is_err());
    assert!(export(".csv", &data).is_err());
    assert!(export("a.csv/b", &data).is_err());
}
