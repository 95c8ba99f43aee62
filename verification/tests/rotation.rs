use insomnilog::rotation::{backup_suffix, rotation_plan, RotationStep};

/// Carries out `plan` on files held as (index, contents): a step whose
/// source is missing does nothing; afterwards the live file (index 0) is
/// created empty, as the sink opens it.
fn apply(files: &mut Vec<(usize, String)>, plan: &[RotationStep]) {
    for step in plan {
        match *step {
            RotationStep::Remove(i) => files.retain(|(k, _)| *k != i),
            RotationStep::Rename(from, to) => {
                if files.iter().any(|(k, _)| *k == from) {
                    files.retain(|(k, _)| *k != to);
                    for f in files.iter_mut() {
                        if f.0 == from {
                            f.0 = to;
                        }
                    }
                }
            }
        }
    }
    files.push((0, String::new()));
}

fn contents(files: &[(usize, String)], i: usize) -> Option<&str> {
    files.iter().find(|(k, _)| *k == i).map(|(_, c)| c.as_str())
}

#[test]
fn session_file_sink_cascade_shifts_backups_and_drops_the_oldest() {
    let plan = rotation_plan(2);
    assert_eq!(
        plan,
        vec![RotationStep::Remove(2), RotationStep::Rename(1, 2), RotationStep::Rename(0, 1)]
    );
    let mut files = vec![(0, "live\n".to_owned()), (1, "one\n".to_owned()), (2, "two\n".to_owned())];
    apply(&mut files, &plan);
    assert_eq!(contents(&files, 1), Some("live\n"));
    assert_eq!(contents(&files, 2), Some("one\n"));
    assert_eq!(contents(&files, 0), Some(""), "the live file starts empty");
    assert_eq!(contents(&files, 3), None, "max_backups = 2 must not create a third slot");
}

#[test]
fn rotation_plan_for_three_backups() {
    assert_eq!(
        rotation_plan(3),
        vec![
            RotationStep::Remove(3),
            RotationStep::Rename(2, 3),
            RotationStep::Rename(1, 2),
            RotationStep::Rename(0, 1),
        ]
    );
}

#[test]
fn session_file_sink_max_backups_zero_deletes_without_creating_a_backup() {
    assert_eq!(rotation_plan(0), vec![RotationStep::Remove(0)]);
}

#[test]
fn backup_suffix_names_backups_by_index() {
    assert_eq!(backup_suffix(0), "");
    assert_eq!(backup_suffix(1), ".1");
    assert_eq!(backup_suffix(12), ".12");
}
