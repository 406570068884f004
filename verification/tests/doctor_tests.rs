use banqline::client::Aspsp;
use banqline::doctor::{bank_rows, doctor_checks, doctor_ok, doctor_rows, DoctorProbes, SessionProbe};

fn probes() -> DoctorProbes {
    DoctorProbes {
        config_exists: true,
        config_path: "/home/u/.config/banqline/config.yaml".into(),
        application_id_set: false,
        key_detail: "/home/u/.config/banqline/key.pem".into(),
        key_ok: true,
        callback_port: 8080,
        port_ok: true,
        session: SessionProbe::Sessions(2),
        database_ok: true,
        database_path: "/home/u/.config/banqline/data.db".into(),
    }
}

#[test]
fn doctor_report() {
    let checks = doctor_checks(&probes());
    assert_eq!(checks.len(), 6);
    assert!(!doctor_ok(&checks));
    let rows = doctor_rows(&checks);
    assert_eq!(rows[0], vec!["config", "OK", "/home/u/.config/banqline/config.yaml", ""]);
    assert_eq!(rows[1], vec!["application_id", "WARN", "not configured", "Set application_id in config.yaml"]);
    assert_eq!(rows[3], vec!["callback_port", "OK", "8080", ""]);
    assert_eq!(rows[4], vec!["session", "OK", "2 session(s)", ""]);
    let mut p = probes();
    p.application_id_set = true;
    p.session = SessionProbe::Sessions(0);
    let checks = doctor_checks(&p);
    assert_eq!(checks[4].detail, "no sessions");
    assert_eq!(checks[4].suggestion.as_deref(), Some("Run `banqline bank connect --country FR --bank <name>`"));
    p.session = SessionProbe::Missing;
    assert_eq!(doctor_checks(&p)[4].detail, "missing");
    p.session = SessionProbe::Sessions(1);
    assert!(doctor_ok(&doctor_checks(&p)));
}

#[test]
fn bank_filter_ignores_case() {
    let banks = vec![
        Aspsp { name: "BNP Paribas".into(), country: "FR".into() },
        Aspsp { name: "Crédit Agricole".into(), country: "FR".into() },
    ];
    assert_eq!(bank_rows(&banks, None).len(), 2);
    assert_eq!(bank_rows(&banks, Some("paribas")), vec![vec!["BNP Paribas", "FR"]]);
    assert_eq!(bank_rows(&banks, Some("CRÉDIT")), vec![vec!["Crédit Agricole", "FR"]]);
    assert!(bank_rows(&banks, Some("zz")).is_empty());
}
