//! What the commands of the command line tool decide and write: the checks
//! to verify, the target key of migrating and reverting, the new migrations
//! to create, the settings the options change, and the texts of reports.
use crate::action::{Check, Checks};
use crate::args::{CreateArgs, MigrateArgs, VerifyArgs};
use crate::checksum::{decimal, decimal_string, signed_decimal_string};
use crate::config::RunnerConfig;
use crate::key::{
    code_lt, formatted_key, key_result, lemma_code_lt_total, lemma_code_lt_transitive, padded_digits,
    MigrationKey,
};
use crate::migration::{Execution, Migration, MigrationKind, NewMigration, Problem, ProblematicMigration, Timestamp};
use crate::text::{append_text, chars_of, path_file_name, std_path_file_name, string_of, trim_text, trimmed};
use chrono::DateTime;
use vstd::prelude::*;

verus! {

/// The checks of verifying that the options `--checksum` and `--order` ask
/// for: those given, or all where none is given.
pub fn checks_from_args(args: &VerifyArgs) -> (checks: Checks)
    ensures
        checks.checksum == (args.checksum || !args.order),
        checks.order == (args.order || !args.checksum),
{
    let checks = if args.checksum {
        if args.order {
            Check::Checksum.combine(Check::Order)
        } else {
            Checks::from(Check::Checksum)
        }
    } else if args.order {
        Checks::from(Check::Order)
    } else {
        Checks::all()
    };
    assert(checks.has(Check::Checksum) == checks.checksum);
    assert(checks.has(Check::Order) == checks.order);
    checks
}

/// The runner configuration with the checks that the options of migrating
/// switch off.
pub fn apply_command_args_to_runner_config(runner_config: RunnerConfig, args: &MigrateArgs) -> (config: RunnerConfig)
    ensures
        config.migrations_folder == runner_config.migrations_folder,
        config.excluded_files == runner_config.excluded_files,
        config.migrations_table == runner_config.migrations_table,
        config.ignore_checksum == (runner_config.ignore_checksum || args.ignore_checksum),
        config.ignore_order == (runner_config.ignore_order || args.ignore_order),
{
    let runner_config = if args.ignore_checksum {
        runner_config.with_ignore_checksum(args.ignore_checksum)
    } else {
        runner_config
    };
    let runner_config = if args.ignore_order {
        runner_config.with_ignore_order(args.ignore_order)
    } else {
        runner_config
    };
    runner_config
}

/// The message for an option `--to` without key.
pub open spec fn no_key_message() -> Seq<char> {
    "no key specified for option '--to'. please specify a key following the '--to' option in the format yyyymmdd_HHMMSS, e.g. --to 20250103_140520"@
}

/// The message for an option `--to` whose argument is not a key.
pub open spec fn invalid_key_message(arg: Seq<char>) -> Seq<char> {
    "the argument in option '--to "@ + arg
        + "' is not a valid migration key. please specify the key in the format yyyymmdd_HHMMSS, e.g. --to 20250103_140520"@
}

/// What the argument of the option `--to` gives: the key it holds once white
/// space around it is removed, or the message why it holds none.
pub open spec fn target_key_of(arg: Seq<char>) -> Result<MigrationKey, Seq<char>> {
    let t = trimmed(arg);
    if t.len() == 0 {
        Err(no_key_message())
    } else {
        match key_result(t) {
            Ok(c) => Ok(MigrationKey::from_code(c)),
            Err(_) => Err(invalid_key_message(t)),
        }
    }
}

/// Reads the key of the option `--to` of migrating and reverting.
pub fn target_key(arg: &str) -> (r: Result<MigrationKey, String>)
    ensures
        match r {
            Ok(k) => target_key_of(arg@) == Ok::<MigrationKey, Seq<char>>(k),
            Err(m) => target_key_of(arg@) == Err::<MigrationKey, Seq<char>>(m@),
        },
{
    let key_arg = trim_text(arg);
    if chars_of(key_arg.as_str()).len() == 0 {
        return Err(String::from_str(
            "no key specified for option '--to'. please specify a key following the '--to' option in the format yyyymmdd_HHMMSS, e.g. --to 20250103_140520",
        ));
    }
    match MigrationKey::parse(key_arg.as_str()) {
        Ok(key) => Ok(key),
        Err(_) => {
            let mut out: Vec<char> = Vec::new();
            append_text(&mut out, "the argument in option '--to ");
            append_text(&mut out, key_arg.as_str());
            append_text(
                &mut out,
                "' is not a valid migration key. please specify the key in the format yyyymmdd_HHMMSS, e.g. --to 20250103_140520",
            );
            Err(string_of(out.as_slice()))
        },
    }
}

/// The new migrations that creating makes for a key: a forward one with
/// the title, and a backward one with the same key and title if asked for.
pub fn new_migrations_for(key: MigrationKey, args: CreateArgs) -> (r: (NewMigration, Option<NewMigration>))
    ensures
        r.0.key == key,
        r.0.kind == MigrationKind::Up,
        r.0.title@ == match args.title {
            Some(t) => t@,
            None => Seq::empty(),
        },
        args.down ==> (r.1 matches Some(d) && d.key == key && d.kind == MigrationKind::Down
            && d.title@ == r.0.title@),
        !args.down ==> r.1 is None,
{
    let title = match args.title {
        Some(t) => t,
        None => String::new(),
    };
    if args.down {
        let up = NewMigration { key, title: title.clone(), kind: MigrationKind::Up };
        let down = NewMigration { key, title, kind: MigrationKind::Down };
        (up, Some(down))
    } else {
        (NewMigration { key, title, kind: MigrationKind::Up }, None)
    }
}

// ---------------------------------------------------------------------------
// Reports
// ---------------------------------------------------------------------------

/// The line that reports a problematic migration.
pub open spec fn problem_line(pm: ProblematicMigration) -> Seq<char> {
    match pm.problem {
        Problem::ChecksumMismatch { definition_checksum, execution_checksum } => "* migration "@
            + formatted_key(pm.key) + " has changed - current checksum: "@ + decimal(
            definition_checksum.0 as nat,
        ) + ", applied checksum: "@ + decimal(execution_checksum.0 as nat),
        Problem::OutOfOrder { last_applied_key } => "* migration "@ + formatted_key(pm.key)
            + " is out of order - last applied migration is "@ + formatted_key(last_applied_key),
    }
}

/// Writes the line that reports a problematic migration.
pub fn problem_message(pm: &ProblematicMigration) -> (line: String)
    requires
        pm.key.is_valid(),
        pm.problem matches Problem::OutOfOrder { last_applied_key } ==> last_applied_key.is_valid(),
    ensures
        line@ == problem_line(*pm),
{
    let mut out: Vec<char> = Vec::new();
    append_text(&mut out, "* migration ");
    append_text(&mut out, pm.key.to_key_string().as_str());
    match pm.problem {
        Problem::ChecksumMismatch { definition_checksum, execution_checksum } => {
            append_text(&mut out, " has changed - current checksum: ");
            append_text(&mut out, definition_checksum.to_string().as_str());
            append_text(&mut out, ", applied checksum: ");
            append_text(&mut out, execution_checksum.to_string().as_str());
        },
        Problem::OutOfOrder { last_applied_key } => {
            append_text(&mut out, " is out of order - last applied migration is ");
            append_text(&mut out, last_applied_key.to_key_string().as_str());
        },
    }
    let line = string_of(out.as_slice());
    assert(line@ =~= problem_line(*pm));
    line
}

/// The line that counts the problematic migrations found.
pub open spec fn problems_summary_line(n: nat) -> Seq<char> {
    if n == 1 {
        "\nFound 1 problematic migration."@
    } else {
        "\nFound "@ + decimal(n) + " problematic migrations."@
    }
}

/// Writes the line that counts the problematic migrations found.
pub fn problems_summary(num_problems: usize) -> (line: String)
    ensures
        line@ == problems_summary_line(num_problems as nat),
{
    if num_problems == 1 {
        String::from_str("\nFound 1 problematic migration.")
    } else {
        let mut out: Vec<char> = Vec::new();
        append_text(&mut out, "\nFound ");
        append_text(&mut out, decimal_string(num_problems as u64).as_str());
        append_text(&mut out, " problematic migrations.");
        let line = string_of(out.as_slice());
        assert(line@ =~= problems_summary_line(num_problems as nat));
        line
    }
}

// ---------------------------------------------------------------------------
// The table of migrations
// ---------------------------------------------------------------------------

/// What `chrono` writes for a point in time as `%Y-%m-%d %H:%M:%S` in UTC:
/// nothing for a point it cannot represent.
pub uninterp spec fn chrono_format_timestamp(seconds: i64, nanoseconds: u32) -> Seq<char>;

/// The date of the proleptic Gregorian calendar of a day counted from
/// 1970-01-01: year, month and day.
pub open spec fn civil_date(days: int) -> (int, int, int) {
    let z = days + 719468;
    let era = z / 146097;
    let doe = z - era * 146097;
    let yoe = (doe - doe / 1460 + doe / 36524 - doe / 146096) / 365;
    let doy = doe - (365 * yoe + yoe / 4 - yoe / 100);
    let mp = (5 * doy + 2) / 153;
    let day = doy - (153 * mp + 2) / 5 + 1;
    let month = if mp < 10 {
        mp + 3
    } else {
        mp - 9
    };
    let year = yoe + era * 400 + if month <= 2 {
        1int
    } else {
        0int
    };
    (year, month, day)
}

/// The first second of the year 0 and the first second of the year 10000,
/// counted from the Unix epoch.
pub open spec fn four_digit_years(seconds: int) -> bool {
    -62_167_219_200 <= seconds < 253_402_300_800
}

/// A point in time, in seconds since the Unix epoch, written as
/// `YYYY-MM-DD HH:MM:SS` with every field zero-padded.
pub open spec fn timestamp_text(seconds: int) -> Seq<char> {
    let (year, month, day) = civil_date(seconds / 86400);
    let s = seconds % 86400;
    padded_digits(year as nat, 4) + seq!['-'] + padded_digits(month as nat, 2) + seq!['-']
        + padded_digits(day as nat, 2) + seq![' '] + padded_digits((s / 3600) as nat, 2) + seq![':']
        + padded_digits((s % 3600 / 60) as nat, 2) + seq![':'] + padded_digits((s % 60) as nat, 2)
}

/// What the table shows of the point in time at which a migration was
/// applied: for a whole second of a year from 0 to 9999 its date and time,
/// otherwise what `chrono` writes.
pub open spec fn applied_at_text(seconds: i64, nanoseconds: u32) -> Seq<char> {
    if four_digit_years(seconds as int) && nanoseconds < 1_000_000_000 {
        timestamp_text(seconds as int)
    } else {
        chrono_format_timestamp(seconds, nanoseconds)
    }
}

/// Writes a point in time as `%Y-%m-%d %H:%M:%S` in UTC with
/// `chrono::DateTime::from_timestamp` and `format`.
///
/// Trusted: the result is `chrono_format_timestamp` of the point. For a point
/// of a year from 0 to 9999 without a leap second it is `timestamp_text`:
/// `from_timestamp` counts whole days from 1970-01-01 in the proleptic
/// Gregorian calendar and the seconds of the day, and `%Y` writes a year
/// from 0 to 9999 with four digits, the other fields with two. A point that
/// `from_timestamp` cannot represent gives an empty text.
#[verifier::external_body]
fn format_timestamp(at: &Timestamp) -> (text: String)
    ensures
        text@ == chrono_format_timestamp(at.seconds, at.nanoseconds),
        four_digit_years(at.seconds as int) && at.nanoseconds < 1_000_000_000 ==> text@
            == timestamp_text(at.seconds as int),
{
    DateTime::from_timestamp(at.seconds, at.nanoseconds).map_or_else(
        String::new,
        |dt| dt.naive_utc().format("%Y-%m-%d %H:%M:%S").to_string(),
    )
}

/// The file name of a path, or nothing.
pub open spec fn file_name_or_empty(path: Seq<char>) -> Seq<char> {
    match std_path_file_name(path) {
        Some(n) => n,
        None => Seq::empty(),
    }
}

/// A rank as text: `-` before a negative one.
pub open spec fn rank_text(n: i64) -> Seq<char> {
    if n < 0 {
        seq!['-'] + decimal((-n) as nat)
    } else {
        decimal(n as nat)
    }
}

/// The cells of a row of the table of migrations: key, title, kind, file
/// name of the script, and for an applied migration its rank, when and by
/// whom it was applied and its checksum.
pub open spec fn row_cells(mig: Migration, exe: Option<Execution>) -> Seq<Seq<char>> {
    let head = seq![
        formatted_key(mig.key),
        mig.title@,
        mig.kind.spec_name(),
        file_name_or_empty(mig.script_path@),
    ];
    match exe {
        Some(e) => head + seq![
            rank_text(e.applied_rank),
            applied_at_text(e.applied_at.seconds, e.applied_at.nanoseconds),
            e.applied_by@,
            decimal(e.checksum.0 as nat),
        ],
        None => head + seq![Seq::<char>::empty(), Seq::empty(), Seq::empty(), Seq::empty()],
    }
}

/// The cells of a row of the table of migrations.
pub fn migration_row(mig: &Migration, exe: &Option<Execution>) -> (cells: Vec<String>)
    requires
        mig.key.is_valid(),
    ensures
        cells@.map_values(|c: String| c@) == row_cells(*mig, *exe),
{
    let file_name = match path_file_name(mig.script_path.as_str()) {
        Some(n) => n,
        None => String::new(),
    };
    let mut cells: Vec<String> = Vec::new();
    cells.push(mig.key.to_key_string());
    cells.push(mig.title.clone());
    cells.push(String::from_str(mig.kind.as_str()));
    cells.push(file_name);
    match exe {
        Some(e) => {
            cells.push(signed_decimal_string(e.applied_rank));
            cells.push(format_timestamp(&e.applied_at));
            cells.push(e.applied_by.clone());
            cells.push(e.checksum.to_string());
        },
        None => {
            cells.push(String::new());
            cells.push(String::new());
            cells.push(String::new());
            cells.push(String::new());
        },
    }
    assert(cells@.map_values(|c: String| c@) =~= row_cells(*mig, *exe));
    cells
}

/// The header of the table of migrations.
pub fn migrations_table_header() -> (cells: Vec<&'static str>)
    ensures
        cells@.map_values(|c: &str| c@) == seq![
            "Key"@,
            "Title"@,
            "Kind"@,
            "Script"@,
            "Rank"@,
            "Applied at"@,
            "Applied by"@,
            "Checksum"@,
        ],
{
    let cells = vec!["Key", "Title", "Kind", "Script", "Rank", "Applied at", "Applied by", "Checksum"];
    assert(cells@.map_values(|c: &str| c@) =~= seq![
        "Key"@,
        "Title"@,
        "Kind"@,
        "Script"@,
        "Rank"@,
        "Applied at"@,
        "Applied by"@,
        "Checksum"@,
    ]);
    cells
}


/// No problematic migration has a later key than one after it.
pub open spec fn problems_sorted_by_key(s: Seq<ProblematicMigration>) -> bool {
    forall|i: int, j: int| 0 <= i < j < s.len() ==> !code_lt(s[j].key.code(), s[i].key.code())
}

/// Inserts a problematic migration into ones sorted by key, after those
/// whose key is not later.
fn insert_problem(sorted: &mut Vec<ProblematicMigration>, pm: ProblematicMigration)
    requires
        problems_sorted_by_key(old(sorted)@),
    ensures
        problems_sorted_by_key(final(sorted)@),
        final(sorted)@.to_multiset() == old(sorted)@.to_multiset().insert(pm),
{
    let k = pm.key.key_code();
    let mut pos: usize = 0;
    while pos < sorted.len() && !crate::key::code_before(&k, &sorted[pos].key.key_code())
        invariant
            pos <= sorted.len(),
            forall|i: int| 0 <= i < pos ==> !code_lt(k, #[trigger] sorted@[i].key.code()),
        decreases sorted.len() - pos,
    {
        pos += 1;
    }
    let ghost before = sorted@;
    proof {
        vstd::seq_lib::to_multiset_insert(before, pos as int, pm);
    }
    sorted.insert(pos, pm);
    assert forall|i: int, j: int| 0 <= i < j < sorted@.len() implies !code_lt(
        sorted@[j].key.code(),
        sorted@[i].key.code(),
    ) by {
        let a = sorted@[i].key.code();
        let c = sorted@[j].key.code();
        lemma_code_lt_total(a, k);
        lemma_code_lt_total(c, k);
        lemma_code_lt_total(a, c);
        if i < pos && j == pos {
            assert(!code_lt(k, before[i].key.code()));
        } else if i == pos && j > pos {
            assert(sorted@[j] == before[j - 1]);
            if (j - 1) > pos {
                assert(!code_lt(before[j - 1].key.code(), before[pos as int].key.code()));
                lemma_code_lt_total(before[pos as int].key.code(), k);
                if code_lt(before[j - 1].key.code(), k) {
                    lemma_code_lt_transitive(k, before[pos as int].key.code(), before[j - 1].key.code());
                }
            }
        } else if i < pos && j > pos {
            assert(sorted@[j] == before[j - 1]);
            assert(sorted@[i] == before[i]);
        } else if j < pos {
            assert(sorted@[j] == before[j]);
            assert(sorted@[i] == before[i]);
        } else {
            assert(sorted@[j] == before[j - 1]);
            assert(sorted@[i] == before[i - 1]);
        }
    }
}

/// The problematic migrations in the order a report lists them: by key.
pub fn sort_problems_by_key(problems: Vec<ProblematicMigration>) -> (sorted: Vec<ProblematicMigration>)
    ensures
        problems_sorted_by_key(sorted@),
        sorted@.to_multiset() == problems@.to_multiset(),
{
    let ghost all = problems@;
    let mut sorted: Vec<ProblematicMigration> = Vec::new();
    assert(all.take(0) =~= Seq::<ProblematicMigration>::empty());
    for pm in it: problems.into_iter()
        invariant
            it.seq() == all,
            problems_sorted_by_key(sorted@),
            sorted@.to_multiset() == all.take(it.index() as int).to_multiset(),
    {
        let ghost i = it.index() as int;
        assert(all.take(i + 1) =~= all.take(i).push(pm));
        proof {
            vstd::seq_lib::to_multiset_build(all.take(i), pm);
        }
        insert_problem(&mut sorted, pm);
    }
    assert(all.take(all.len() as int) =~= all);
    sorted
}


/// Which columns of the table of migrations are aligned to the right: the
/// rank alone.
pub fn right_aligned_columns() -> (columns: Vec<bool>)
    ensures
        columns@ == seq![false, false, false, false, true, false, false, false],
{
    let columns = vec![false, false, false, false, true, false, false, false];
    assert(columns@ =~= seq![false, false, false, false, true, false, false, false]);
    columns
}

} // verus!
