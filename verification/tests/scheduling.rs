use ayni::scheduler::{effective_worker_count, LanguageCaps, ScheduledJob, SchedulerQueue};
use ayni::vocabulary::Language;

#[test]
fn worker_pool_is_bounded_by_effective_language_capacity() {
    let jobs = (0..100)
        .map(|index| ScheduledJob {
            index,
            language: Language::Rust,
            payload: (),
        })
        .collect::<Vec<_>>();
    assert_eq!(
        effective_worker_count(&jobs, 100, &LanguageCaps::from_pairs(&[(Language::Rust, 1)])),
        1
    );
}

#[test]
fn worker_pool_sums_capacity_across_languages() {
    let languages = [Language::Rust, Language::Rust, Language::Rust, Language::Node, Language::Node, Language::Go];
    let jobs = languages
        .iter()
        .enumerate()
        .map(|(index, language)| ScheduledJob { index, language: *language, payload: index })
        .collect::<Vec<_>>();
    let caps = LanguageCaps::from_pairs(&[(Language::Rust, 1), (Language::Node, 2)]);
    assert_eq!(effective_worker_count(&jobs, 3, &caps), 3);
    assert_eq!(effective_worker_count(&jobs, 10, &caps), 4);
    assert_eq!(effective_worker_count(&jobs, 0, &caps), 1);
    assert_eq!(effective_worker_count::<usize>(&[], 4, &caps), 0);
}

#[test]
fn queue_respects_caps_and_release_reopens_a_slot() {
    let languages = [Language::Rust, Language::Rust, Language::Node];
    let jobs = languages
        .iter()
        .enumerate()
        .map(|(index, language)| ScheduledJob { index, language: *language, payload: index })
        .collect::<Vec<_>>();
    let caps = LanguageCaps::from_pairs(&[(Language::Rust, 1)]);
    let mut queue = SchedulerQueue::new(jobs);
    let first = queue.take_next(&caps).expect("first job");
    assert_eq!(first.index, 0);
    let second = queue.take_next(&caps).expect("node job runs beside rust");
    assert_eq!(second.index, 2);
    assert!(queue.take_next(&caps).is_none());
    queue.release(Language::Rust);
    let third = queue.take_next(&caps).expect("rust slot reopened");
    assert_eq!(third.index, 1);
}

#[test]
fn later_cap_pairs_replace_earlier_ones() {
    let caps = LanguageCaps::from_pairs(&[(Language::Go, 4), (Language::Go, 2)]);
    assert_eq!(caps.get(Language::Go), Some(2));
    assert_eq!(caps.get(Language::Rust), None);
}
