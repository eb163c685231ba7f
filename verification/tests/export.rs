//! What an exported file is called and what it holds.

use sdrtop::export::destination::{date_of, file_name, Date, WriteFault, END_OF_TIME};
use sdrtop::export::occupancy::{header, rows, ExportBand, ExportCell};
use sdrtop::signal::net::occupancy;

fn micro(x: f64) -> i64 {
    (x * 1e6).round() as i64
}

fn band(cells: Vec<ExportCell>) -> ExportBand {
    ExportBand { cells, trusted: true, tail: micro(2.1), spread: micro(30.0) }
}

/// A cell with the binomial uncertainty of its windows, shown to a whole percent.
fn measured(duty: f64, windows: u64) -> ExportCell {
    let sigma = (duty * (1.0 - duty) / windows as f64).sqrt() * 100.0;
    ExportCell {
        windows,
        duty_pct: micro(duty * 100.0),
        sigma_pct: Some(micro(sigma)),
        resolved: sigma <= 1.0,
        coverage_pct: Some(micro(0.16 * 100.0)),
        mean: micro(-60.0),
        peak: micro(-30.0),
    }
}

fn unseen() -> ExportCell {
    ExportCell {
        windows: 0,
        duty_pct: 0,
        sigma_pct: None,
        resolved: false,
        coverage_pct: None,
        mean: 0,
        peak: 0,
    }
}

#[test]
fn the_file_name_carries_the_instant_the_header_does() {
    assert_eq!(
        file_name("net-census", 1_788_632_561),
        "net-census-20260905-182241.csv"
    );
    let date = date_of(1_788_632_561 / 86_400);
    assert_eq!(format!("{}-{:02}-{:02}", date.year, date.month, date.day), "2026-09-05");
    assert!(file_name("x", 1_788_632_561).contains("20260905"));
}

#[test]
fn the_calendar_knows_its_leap_years() {
    assert_eq!(file_name("x", 0), "x-19700101-000000.csv");
    assert_eq!(file_name("x", 951_782_400), "x-20000229-000000.csv");
    assert_eq!(file_name("x", 951_868_800), "x-20000301-000000.csv");
    assert_eq!(file_name("x", 4_107_542_400), "x-21000301-000000.csv");
    assert_eq!(file_name("x", 4_107_542_399), "x-21000228-235959.csv");
    assert_eq!(file_name("x", END_OF_TIME - 1), "x-99991231-235959.csv");
    assert_eq!(date_of(364), Date { year: 1970, month: 12, day: 31 });
    assert_eq!(date_of(365), Date { year: 1971, month: 1, day: 1 });
}

#[test]
fn names_a_second_apart_differ() {
    assert_ne!(file_name("net", 1_788_632_561), file_name("net", 1_788_632_562));
}

#[test]
fn every_line_of_a_file_is_ended() {
    assert_eq!(sdrtop::export::destination::write(&["# header".to_string(), "a,b".to_string()]), "# header\na,b\n");
    assert_eq!(sdrtop::export::destination::write(&[]), "");
}

#[test]
fn every_failure_names_its_path() {
    let path = "/data/out.csv";
    assert_eq!(
        WriteFault::NoDirectory("/data/no-such-dir".to_string()).message(path),
        "no directory to export into: /data/no-such-dir"
    );
    assert_eq!(
        WriteFault::Exists.message(path),
        "/data/out.csv exists already, refusing to overwrite it"
    );
    assert_eq!(
        WriteFault::NotCreated("denied".to_string()).message(path),
        "cannot create /data/out.csv: denied"
    );
    assert_eq!(
        WriteFault::NotWritten("full".to_string()).message(path),
        "cannot write /data/out.csv: full"
    );
    assert_eq!(
        WriteFault::NotFinished("full".to_string()).message(path),
        "cannot finish writing /data/out.csv: full"
    );
}

#[test]
fn every_cell_of_the_band_gets_a_row_and_the_header_names_its_units() {
    let out = rows(&band(vec![measured(0.25, 8_000); occupancy::CELLS])).unwrap();
    assert_eq!(out.len(), occupancy::CELLS);
    assert_eq!(header().split(',').count(), out[0].split(',').count());
    for column in ["mhz", "duty_pct", "mean_dbfs", "windows"] {
        assert!(header().contains(column), "{}", header());
    }
    assert!(out[0].starts_with("2400.5,yes,25.00,"), "{}", out[0]);
    assert_eq!(out[0], "2400.5,yes,25.00,0.48,16.0,-60.0,-30.0,8000");
}

#[test]
fn an_unobserved_cell_is_blank_rather_than_a_quiet_one() {
    let mut cells = vec![unseen(); occupancy::CELLS];
    cells[40] = measured(0.5, 8_000);
    let out = rows(&band(cells)).unwrap();
    let blank: Vec<&str> = out[0].split(',').collect();
    assert_eq!(blank[1], "no");
    for (i, field) in blank.iter().enumerate().take(7).skip(2) {
        assert!(field.is_empty(), "field {i} of an unobserved cell: {field:?}");
    }
    let seen: Vec<&str> = out[40].split(',').collect();
    assert_eq!(seen[1], "yes");
    assert_eq!(seen[2], "50.00");
}

#[test]
fn a_duty_cycle_the_panel_would_dash_is_not_exported_as_a_figure() {
    let mut cells = vec![unseen(); occupancy::CELLS];
    cells[10] = measured(0.5, 40);
    let out = rows(&band(cells)).unwrap();
    let f: Vec<&str> = out[10].split(',').collect();
    assert_eq!(f[1], "yes", "it was observed");
    assert_eq!(f[2], "", "but the figure is not supportable");
    assert!(!f[3].is_empty(), "the spread is what is left to say: {:?}", f[3]);
    assert!(f[3].parse::<f64>().unwrap() > 5.0, "{:?}", f[3]);
}

#[test]
fn an_untrusted_floor_exports_no_figures_at_all() {
    let mut b = band(vec![measured(0.25, 8_000); occupancy::CELLS]);
    b.trusted = false;
    b.tail = micro(3.9);
    let err = rows(&b).unwrap_err().message();
    assert!(err.contains("noise floor"), "{err}");
    assert!(err.contains("3.9"), "the figure that decided it: {err}");
    assert_eq!(
        err,
        "the noise floor failed its preconditions (lower tail 3.90, decile spread 30.0), so nothing here was measured against a floor"
    );

    let mut b = band(Vec::new());
    b.cells = Vec::new();
    assert!(rows(&b).unwrap_err().message().contains("no band measurement"));
}

#[test]
fn an_unlooked_at_cell_beside_a_measured_one_stays_blank() {
    let mut cells = vec![unseen(); occupancy::CELLS];
    cells[41] = measured(0.95, 7_800);
    let out = rows(&band(cells)).unwrap();
    assert_eq!(out[41].split(',').nth(2).unwrap(), "95.00");
    assert_eq!(out[0].split(',').nth(2).unwrap(), "");
    assert!(!out[0].contains(",0.00,"), "{}", out[0]);
}

#[test]
fn every_row_has_every_column() {
    let columns = header().split(',').count();
    assert_eq!(columns, 8);
    let bare = ExportCell { sigma_pct: None, coverage_pct: None, resolved: false, ..measured(0.5, 9) };
    let out = rows(&band(vec![measured(0.95, 7_800), unseen(), bare])).unwrap();
    for row in &out {
        assert_eq!(row.split(',').count(), columns, "{row}");
    }
    assert_eq!(out[2], "2402.5,yes,,,,-60.0,-30.0,9");
}
