use cozy_chess::Board;
use marlinflow_utils::data_to_txt::{
    decimal, reports_progress, run, wdl_label, Export, ExportError, Format, Options,
};
use marlinflow_utils::partition::ConfigError;
use marlinflow_utils::tablebases::probe::WDL;

fn options(format: &str, limit: Option<u64>) -> Options {
    Options {
        output: String::from("out.txt"),
        data_file: String::from("data.bin"),
        format: String::from(format),
        limit,
    }
}

#[test]
fn numbers_in_decimal() {
    for n in [0i16, 1, 9, 10, 11, 99, 100, 999, 1000, 12345, i16::MAX, -1, -9, -10, -32767, i16::MIN]
    {
        assert_eq!(decimal(n), n.to_string());
    }
    for n in i16::MIN..=i16::MAX {
        assert_eq!(decimal(n), n.to_string());
    }
}

#[test]
fn outcome_labels() {
    assert_eq!(wdl_label(WDL::Loss), "0.0");
    assert_eq!(wdl_label(WDL::Draw), "0.5");
    assert_eq!(wdl_label(WDL::Win), "1.0");
}

#[test]
fn formats_by_name() {
    assert_eq!(Format::named(&String::from("legacy")), Some(Format::Legacy));
    assert_eq!(Format::named(&String::from("cudad")), Some(Format::Cudad));
    assert_eq!(Format::named(&String::from("Legacy")), None);
    assert_eq!(Format::named(&String::from("")), None);
    assert_eq!(Format::named(&String::from("legacy ")), None);
}

#[test]
fn lines_of_text() {
    assert_eq!(Format::Legacy.write_into("FEN", -42, WDL::Win), "FEN | -42 | 1.0");
    assert_eq!(Format::Cudad.write_into("FEN", -42, WDL::Win), "FEN [1.0] -42");
    assert_eq!(Format::Legacy.write_into("", 0, WDL::Loss), " | 0 | 0.0");
    assert_eq!(Format::Cudad.write_into("x y", 7, WDL::Draw), "x y [0.5] 7");
}

#[test]
fn lines_of_boards() {
    let start = "rnbqkbnr/pppppppp/8/8/8/8/PPPPPPPP/RNBQKBNR w KQkq - 0 1";
    let board = Board::default();
    assert_eq!(Format::Legacy.line(&board, 15, WDL::Draw), format!("{start} | 15 | 0.5"));
    assert_eq!(Format::Cudad.line(&board, 15, WDL::Draw), format!("{start} [0.5] 15"));
    let fen = "4k3/8/8/8/8/8/8/R3K3 b - - 37 112";
    let board: Board = fen.parse().unwrap();
    assert_eq!(Format::Legacy.line(&board, -300, WDL::Loss), format!("{fen} | -300 | 0.0"));
}

#[test]
fn progress_of_an_export() {
    assert!(reports_progress(0));
    assert!(!reports_progress(1));
    assert!(!reports_progress(999));
    assert!(reports_progress(1000));
    assert!(reports_progress(7000));
}

#[test]
fn an_export_is_planned_from_options_and_size() {
    assert_eq!(
        run(&options("legacy", None), 320, 32),
        Ok(Export { format: Format::Legacy, count: 10 })
    );
    assert_eq!(
        run(&options("cudad", Some(4)), 320, 32),
        Ok(Export { format: Format::Cudad, count: 4 })
    );
    assert_eq!(
        run(&options("cudad", Some(10)), 320, 32),
        Ok(Export { format: Format::Cudad, count: 10 })
    );
    assert_eq!(
        run(&options("cudad", Some(11)), 320, 32),
        Ok(Export { format: Format::Cudad, count: 10 })
    );
    assert_eq!(
        run(&options("cudad", Some(0)), 320, 32),
        Ok(Export { format: Format::Cudad, count: 0 })
    );
}

#[test]
fn an_export_is_refused() {
    assert_eq!(run(&options("pgn", None), 320, 32), Err(ExportError::UnknownFormat));
    assert_eq!(
        run(&options("legacy", None), 321, 32),
        Err(ExportError::Config(ConfigError::TruncatedDataset))
    );
    // the dataset is checked first
    assert_eq!(
        run(&options("pgn", None), 321, 32),
        Err(ExportError::Config(ConfigError::TruncatedDataset))
    );
}

#[test]
fn a_line_is_written_only_of_a_sound_board() {
    let board = Board::default();
    assert_eq!(
        Format::Cudad.try_line(&board, 15, WDL::Draw),
        Some(Format::Cudad.line(&board, 15, WDL::Draw))
    );
    let mut broken = Board::default();
    broken.play_unchecked(cozy_chess::Move {
        from: cozy_chess::Square::D1,
        to: cozy_chess::Square::E8,
        promotion: None,
    });
    assert_eq!(Format::Legacy.try_line(&broken, 15, WDL::Draw), None);
}
