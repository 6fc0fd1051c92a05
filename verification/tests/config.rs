use faster2::{select_mode, select_style, Mode, ModeFlags, OutputStyle};

const NONE: ModeFlags =
    ModeFlags { len: false, qual: false, gc: false, nx: false, qyield: false, table: false };

#[test]
fn no_selector_selects_nothing() {
    assert_eq!(select_mode(&NONE), None);
}

#[test]
fn a_single_selector_selects_its_mode() {
    assert_eq!(select_mode(&ModeFlags { len: true, ..NONE }), Some(Mode::Lengths));
    assert_eq!(select_mode(&ModeFlags { qual: true, ..NONE }), Some(Mode::MeanQuality));
    assert_eq!(select_mode(&ModeFlags { gc: true, ..NONE }), Some(Mode::GcContent));
    assert_eq!(select_mode(&ModeFlags { nx: true, ..NONE }), Some(Mode::Nx));
    assert_eq!(select_mode(&ModeFlags { qyield: true, ..NONE }), Some(Mode::QualityYield));
    assert_eq!(select_mode(&ModeFlags { table: true, ..NONE }), Some(Mode::Table));
}

#[test]
fn the_first_selector_wins() {
    let all = ModeFlags { len: true, qual: true, gc: true, nx: true, qyield: true, table: true };
    assert_eq!(select_mode(&all), Some(Mode::Lengths));
    assert_eq!(select_mode(&ModeFlags { len: false, ..all }), Some(Mode::MeanQuality));
    assert_eq!(select_mode(&ModeFlags { nx: true, table: true, ..NONE }), Some(Mode::Nx));
    assert_eq!(select_mode(&ModeFlags { qyield: true, table: true, ..NONE }), Some(Mode::QualityYield));
}

#[test]
fn only_nx_and_table_take_every_input() {
    assert!(Mode::Nx.takes_every_input());
    assert!(Mode::Table.takes_every_input());
    assert!(!Mode::Lengths.takes_every_input());
    assert!(!Mode::MeanQuality.takes_every_input());
    assert!(!Mode::GcContent.takes_every_input());
    assert!(!Mode::QualityYield.takes_every_input());
}

#[test]
fn one_output_style_is_in_force() {
    assert_eq!(select_style(false, false), OutputStyle::Tsv);
    assert_eq!(select_style(false, true), OutputStyle::Json);
    assert_eq!(select_style(true, false), OutputStyle::Pretty);
    assert_eq!(select_style(true, true), OutputStyle::Pretty);
}
