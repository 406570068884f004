use vstd::prelude::*;

use crate::client::Aspsp;
use crate::commands::check_status;
use crate::text::{concat, contains_str, copy_str, has_sub, nat_digits, to_lower, u64_to_string, unicode_lower, views};

verus! {

// ---------------------------------------------------------------------------
// The doctor's checks
// ---------------------------------------------------------------------------

/// What the session file held.
#[derive(Debug, Clone)]
pub enum SessionProbe {
    Missing,
    Sessions(usize),
    Unreadable(String),
}

/// What the doctor found on this machine.
#[derive(Debug, Clone)]
pub struct DoctorProbes {
    pub config_exists: bool,
    pub config_path: String,
    pub application_id_set: bool,
    pub key_detail: String,
    pub key_ok: bool,
    pub callback_port: u16,
    pub port_ok: bool,
    pub session: SessionProbe,
    pub database_ok: bool,
    pub database_path: String,
}

/// One line of the doctor's report.
#[derive(Debug, Clone)]
pub struct DoctorCheck {
    pub name: String,
    pub status: String,
    pub detail: String,
    pub suggestion: Option<String>,
}

pub open spec fn status_text(ok: bool) -> Seq<char> {
    if ok {
        "OK"@
    } else {
        "WARN"@
    }
}

pub open spec fn suggestion_if(ok: bool, s: Seq<char>) -> Option<Seq<char>> {
    if ok {
        None
    } else {
        Some(s)
    }
}

pub open spec fn session_ok(s: SessionProbe) -> bool {
    s matches SessionProbe::Sessions(n) && n > 0
}

pub open spec fn session_detail(s: SessionProbe) -> Seq<char> {
    match s {
        SessionProbe::Missing => "missing"@,
        SessionProbe::Sessions(n) => if n == 0 {
            "no sessions"@
        } else {
            nat_digits(n as nat) + " session(s)"@
        },
        SessionProbe::Unreadable(e) => e@,
    }
}

/// The check's name, status, detail and suggestion.
pub open spec fn check_is(c: DoctorCheck, name: Seq<char>, ok: bool, detail: Seq<char>, suggestion: Seq<char>) -> bool {
    &&& c.name@ == name
    &&& c.status@ == status_text(ok)
    &&& c.detail@ == detail
    &&& match c.suggestion {
        Some(s) => suggestion_if(ok, suggestion) == Some(s@),
        None => suggestion_if(ok, suggestion) is None,
    }
}

fn check(name: &str, ok: bool, detail: String, suggestion: &str) -> (c: DoctorCheck)
    ensures
        check_is(c, name@, ok, detail@, suggestion@),
{
    DoctorCheck {
        name: copy_str(name),
        status: copy_str(check_status(ok)),
        detail,
        suggestion: if ok {
            None
        } else {
            Some(copy_str(suggestion))
        },
    }
}

/// The doctor's report: the configuration file, the application id, the
/// private key, the callback port, the sessions and the database
/// directory, each with what to do when it is not right.
pub fn doctor_checks(p: &DoctorProbes) -> (r: Vec<DoctorCheck>)
    ensures
        r@.len() == 6,
        check_is(r@[0], "config"@, p.config_exists, p.config_path@, "Run `banqline setup` or create the config file"@),
        check_is(
            r@[1],
            "application_id"@,
            p.application_id_set,
            if p.application_id_set {
                "configured"@
            } else {
                "not configured"@
            },
            "Set application_id in config.yaml"@,
        ),
        check_is(
            r@[2],
            "private_key"@,
            p.key_ok,
            p.key_detail@,
            "Put your PEM private key in ~/.config/banqline and set key_path"@,
        ),
        check_is(
            r@[3],
            "callback_port"@,
            p.port_ok,
            nat_digits(p.callback_port as nat),
            "Choose a free callback_port in config.yaml"@,
        ),
        check_is(
            r@[4],
            "session"@,
            session_ok(p.session),
            session_detail(p.session),
            "Run `banqline bank connect --country FR --bank <name>`"@,
        ),
        check_is(
            r@[5],
            "database_dir"@,
            p.database_ok,
            p.database_path@,
            "Check permissions under ~/.config/banqline"@,
        ),
{
    let mut r: Vec<DoctorCheck> = Vec::new();
    r.push(
        check(
            "config",
            p.config_exists,
            copy_str(p.config_path.as_str()),
            "Run `banqline setup` or create the config file",
        ),
    );
    r.push(
        check(
            "application_id",
            p.application_id_set,
            copy_str(
                if p.application_id_set {
                    "configured"
                } else {
                    "not configured"
                },
            ),
            "Set application_id in config.yaml",
        ),
    );
    r.push(
        check(
            "private_key",
            p.key_ok,
            copy_str(p.key_detail.as_str()),
            "Put your PEM private key in ~/.config/banqline and set key_path",
        ),
    );
    r.push(
        check(
            "callback_port",
            p.port_ok,
            u64_to_string(p.callback_port as u64),
            "Choose a free callback_port in config.yaml",
        ),
    );
    let (s_ok, s_detail) = match &p.session {
        SessionProbe::Missing => (false, copy_str("missing")),
        SessionProbe::Sessions(n) => if *n == 0 {
            (false, copy_str("no sessions"))
        } else {
            let mut d = u64_to_string(*n as u64);
            crate::text::push_str(&mut d, " session(s)");
            (true, d)
        },
        SessionProbe::Unreadable(e) => (false, copy_str(e.as_str())),
    };
    r.push(check("session", s_ok, s_detail, "Run `banqline bank connect --country FR --bank <name>`"));
    r.push(
        check(
            "database_dir",
            p.database_ok,
            copy_str(p.database_path.as_str()),
            "Check permissions under ~/.config/banqline",
        ),
    );
    r
}

/// Every check passed.
pub fn doctor_ok(checks: &[DoctorCheck]) -> (r: bool)
    ensures
        r == forall|i: int| 0 <= i < checks@.len() ==> (#[trigger] checks@[i]).status@ == "OK"@,
{
    let mut i: usize = 0;
    while i < checks.len()
        invariant
            i <= checks@.len(),
            forall|j: int| 0 <= j < i ==> (#[trigger] checks@[j]).status@ == "OK"@,
        decreases checks.len() - i,
    {
        if !crate::text::str_eq(checks[i].status.as_str(), "OK") {
            return false;
        }
        i = i + 1;
    }
    true
}

/// The doctor's table: name, status, detail and next step (blank when
/// none).
pub fn doctor_rows(checks: &[DoctorCheck]) -> (rows: Vec<Vec<String>>)
    ensures
        rows@.len() == checks@.len(),
        forall|i: int|
            0 <= i < checks@.len() ==> views((#[trigger] rows@[i])@) == seq![
                checks@[i].name@,
                checks@[i].status@,
                checks@[i].detail@,
                match checks@[i].suggestion {
                    Some(s) => s@,
                    None => Seq::<char>::empty(),
                },
            ],
{
    let mut rows: Vec<Vec<String>> = Vec::new();
    let mut i: usize = 0;
    while i < checks.len()
        invariant
            i <= checks@.len(),
            rows@.len() == i,
            forall|j: int|
                0 <= j < i ==> views((#[trigger] rows@[j])@) == seq![
                    checks@[j].name@,
                    checks@[j].status@,
                    checks@[j].detail@,
                    match checks@[j].suggestion {
                        Some(s) => s@,
                        None => Seq::<char>::empty(),
                    },
                ],
        decreases checks.len() - i,
    {
        let c = &checks[i];
        let mut row: Vec<String> = Vec::new();
        row.push(copy_str(c.name.as_str()));
        row.push(copy_str(c.status.as_str()));
        row.push(copy_str(c.detail.as_str()));
        row.push(
            match &c.suggestion {
                Some(s) => copy_str(s.as_str()),
                None => String::new(),
            },
        );
        assert(views(row@) =~= seq![
            checks@[i as int].name@,
            checks@[i as int].status@,
            checks@[i as int].detail@,
            match checks@[i as int].suggestion {
                Some(s) => s@,
                None => Seq::<char>::empty(),
            },
        ]);
        rows.push(row);
        i = i + 1;
    }
    rows
}

// ---------------------------------------------------------------------------
// Listing banks
// ---------------------------------------------------------------------------

/// A bank the filter keeps: its lower-cased name holds the lower-cased
/// filter.
pub open spec fn bank_matches(a: Aspsp, filter: Seq<char>) -> bool {
    has_sub(unicode_lower(a.name@), unicode_lower(filter))
}

pub open spec fn bank_positions(banks: Seq<Aspsp>, filter: Seq<char>, n: int) -> Seq<int>
    decreases n,
{
    if n <= 0 {
        Seq::<int>::empty()
    } else if bank_matches(banks[n - 1], filter) {
        bank_positions(banks, filter, n - 1).push(n - 1)
    } else {
        bank_positions(banks, filter, n - 1)
    }
}

/// The banks whose name holds the filter, ignoring case, in order; all of
/// them without a filter. Each as a `NAME / COUNTRY` row.
pub fn bank_rows(banks: &[Aspsp], filter: Option<&str>) -> (rows: Vec<Vec<String>>)
    ensures
        filter is None ==> rows@.len() == banks@.len() && forall|i: int|
            0 <= i < banks@.len() ==> views((#[trigger] rows@[i])@) == seq![banks@[i].name@, banks@[i].country@],
        filter matches Some(f) ==> rows@.len() == bank_positions(banks@, f@, banks@.len() as int).len(),
        filter matches Some(f) ==> forall|k: int|
            0 <= k < rows@.len() ==> {
                let a = banks@[bank_positions(banks@, f@, banks@.len() as int)[k]];
                views((#[trigger] rows@[k])@) == seq![a.name@, a.country@]
            },
{
    let mut rows: Vec<Vec<String>> = Vec::new();
    match filter {
        None => {
            let mut i: usize = 0;
            while i < banks.len()
                invariant
                    i <= banks@.len(),
                    rows@.len() == i,
                    forall|j: int| 0 <= j < i ==> views((#[trigger] rows@[j])@) == seq![banks@[j].name@, banks@[j].country@],
                decreases banks.len() - i,
            {
                rows.push(pair_row(banks[i].name.as_str(), banks[i].country.as_str()));
                i = i + 1;
            }
        },
        Some(f) => {
            let lf = to_lower(f);
            let mut i: usize = 0;
            while i < banks.len()
                invariant
                    i <= banks@.len(),
                    lf@ == unicode_lower(f@),
                    rows@.len() == bank_positions(banks@, f@, i as int).len(),
                    forall|k: int|
                        0 <= k < rows@.len() ==> {
                            let a = banks@[bank_positions(banks@, f@, i as int)[k]];
                            views((#[trigger] rows@[k])@) == seq![a.name@, a.country@]
                        },
                decreases banks.len() - i,
            {
                let ln = to_lower(banks[i].name.as_str());
                if contains_str(ln.as_str(), lf.as_str()) {
                    let ghost before = rows@;
                    rows.push(pair_row(banks[i].name.as_str(), banks[i].country.as_str()));
                    proof {
                        assert forall|k: int| 0 <= k < rows@.len() implies {
                            let a = banks@[bank_positions(banks@, f@, i + 1)[k]];
                            views((#[trigger] rows@[k])@) == seq![a.name@, a.country@]
                        } by {
                            if k < before.len() {
                                assert(rows@[k] == before[k]);
                            }
                        }
                    }
                }
                i = i + 1;
            }
        },
    }
    rows
}

fn pair_row(a: &str, b: &str) -> (r: Vec<String>)
    ensures
        views(r@) == seq![a@, b@],
{
    let mut v: Vec<String> = Vec::new();
    v.push(copy_str(a));
    v.push(copy_str(b));
    assert(views(v@) =~= seq![a@, b@]);
    v
}

} // verus!
