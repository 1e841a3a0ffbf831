use rebop::engine::Error;
use rebop::species::SpeciesTable;
use rebop::trajectory::{Directive, Recorder};

#[test]
fn grid_plan_takes_one_sample_for_each_grid_point() {
    let mut recorder = Recorder::new(1, 2);
    assert_eq!(recorder.next(false), Directive::AdvanceTo { index: 0, of: 2 });
    assert_eq!(recorder.record(&vec![5]), Ok(()));
    assert_eq!(recorder.next(false), Directive::AdvanceTo { index: 1, of: 2 });
    assert_eq!(recorder.record(&vec![5]), Ok(()));
    assert_eq!(recorder.next(false), Directive::AdvanceTo { index: 2, of: 2 });
    assert_eq!(recorder.record(&vec![5]), Ok(()));
    assert_eq!(recorder.next(false), Directive::Finish);
    assert_eq!(recorder.nb_samples(), 3);
}

#[test]
fn grid_plan_does_not_look_at_the_clock() {
    let mut recorder = Recorder::new(0, 3);
    for index in 0..=3 {
        assert_eq!(recorder.next(true), Directive::AdvanceTo { index, of: 3 });
        recorder.halt();
        assert_eq!(recorder.next(false), Directive::AdvanceTo { index, of: 3 });
        assert_eq!(recorder.record(&vec![]), Ok(()));
    }
    assert_eq!(recorder.next(false), Directive::Finish);
    assert_eq!(recorder.next(true), Directive::Finish);
    assert_eq!(recorder.nb_samples(), 4);
}

#[test]
fn event_plan_starts_with_the_state() {
    let recorder = Recorder::new(2, 0);
    assert_eq!(recorder.next(false), Directive::Record);
    assert_eq!(recorder.next(true), Directive::Record);
    assert_eq!(recorder.nb_samples(), 0);
}

#[test]
fn event_plan_reacts_until_the_end_is_reached() {
    let mut recorder = Recorder::new(1, 0);
    assert_eq!(recorder.record(&vec![3]), Ok(()));
    assert_eq!(recorder.next(false), Directive::React);
    assert_eq!(recorder.record(&vec![2]), Ok(()));
    assert_eq!(recorder.next(false), Directive::React);
    assert_eq!(recorder.record(&vec![1]), Ok(()));
    assert_eq!(recorder.next(true), Directive::Finish);
    assert_eq!(recorder.nb_samples(), 3);
}

#[test]
fn event_plan_stops_when_halted() {
    let mut recorder = Recorder::new(1, 0);
    assert_eq!(recorder.record(&vec![0]), Ok(()));
    assert_eq!(recorder.next(false), Directive::React);
    recorder.halt();
    assert_eq!(recorder.next(false), Directive::Finish);
    assert_eq!(recorder.nb_samples(), 1);
    assert_eq!(recorder.column(0), Ok(vec![0]));
}

#[test]
fn record_refuses_another_shape() {
    let mut recorder = Recorder::new(2, 0);
    assert_eq!(recorder.record(&vec![1]), Err(Error::ShapeMismatch));
    assert_eq!(recorder.record(&vec![1, 2, 3]), Err(Error::ShapeMismatch));
    assert_eq!(recorder.record(&vec![]), Err(Error::ShapeMismatch));
    assert_eq!(recorder.nb_samples(), 0);
    assert_eq!(recorder.next(false), Directive::Record);
    assert_eq!(recorder.record(&vec![1, 2]), Ok(()));
    assert_eq!(recorder.nb_samples(), 1);
}

#[test]
fn record_copies_the_state() {
    let mut recorder = Recorder::new(2, 0);
    let mut x = vec![1, 2];
    assert_eq!(recorder.record(&x), Ok(()));
    x[0] = 10;
    assert_eq!(recorder.record(&x), Ok(()));
    assert_eq!(recorder.column(0), Ok(vec![1, 10]));
    assert_eq!(recorder.column(1), Ok(vec![2, 2]));
}

#[test]
fn columns_are_the_samples_by_species() {
    let mut recorder = Recorder::new(3, 0);
    assert_eq!(recorder.record(&vec![999, 1, 0]), Ok(()));
    assert_eq!(recorder.record(&vec![998, 2, 0]), Ok(()));
    assert_eq!(recorder.record(&vec![998, 1, 1]), Ok(()));
    assert_eq!(recorder.record(&vec![997, 2, 1]), Ok(()));
    assert_eq!(recorder.column(0), Ok(vec![999, 998, 998, 997]));
    assert_eq!(recorder.column(1), Ok(vec![1, 2, 1, 2]));
    assert_eq!(recorder.column(2), Ok(vec![0, 0, 1, 1]));
}

#[test]
fn column_out_of_range() {
    let mut recorder = Recorder::new(2, 0);
    assert_eq!(recorder.record(&vec![1, 2]), Ok(()));
    assert_eq!(recorder.column(2), Err(Error::IndexOutOfRange));
    assert_eq!(recorder.column(usize::MAX), Err(Error::IndexOutOfRange));
    let empty = Recorder::new(0, 5);
    assert_eq!(empty.column(0), Err(Error::IndexOutOfRange));
}

#[test]
fn column_of_no_sample_is_empty() {
    let recorder = Recorder::new(2, 4);
    assert_eq!(recorder.column(0), Ok(vec![]));
    assert_eq!(recorder.column(1), Ok(vec![]));
}

#[test]
fn named_columns_follow_the_table() {
    let mut table = SpeciesTable::new();
    assert_eq!(table.register(&"S".to_string()), 0);
    assert_eq!(table.register(&"I".to_string()), 1);
    let mut recorder = Recorder::new(2, 0);
    assert_eq!(recorder.record(&vec![9, 1]), Ok(()));
    assert_eq!(recorder.record(&vec![8, 2]), Ok(()));
    assert_eq!(
        recorder.named_columns(&table),
        Ok(vec![("S".to_string(), vec![9, 8]), ("I".to_string(), vec![1, 2])])
    );
}

#[test]
fn named_columns_need_one_name_for_each_species() {
    let mut table = SpeciesTable::new();
    table.register(&"S".to_string());
    let recorder = Recorder::new(2, 0);
    assert_eq!(recorder.named_columns(&table), Err(Error::ShapeMismatch));
    let none = Recorder::new(0, 0);
    assert_eq!(none.named_columns(&table), Err(Error::ShapeMismatch));
    assert_eq!(none.named_columns(&SpeciesTable::new()), Ok(vec![]));
}
