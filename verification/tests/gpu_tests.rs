use rts::gpu::{free_from_answers, gpus_from_answers, lookup_free, reserved_bytes, reserve_for_index, select_gpus};
use rts::task::{GpuInfo, GpuRequirement};

fn infos() -> Vec<GpuInfo> {
    vec![
        GpuInfo { index: 0, total_memory_bytes: 1000 },
        GpuInfo { index: 1, total_memory_bytes: 1000 },
        GpuInfo { index: 2, total_memory_bytes: 2000 },
    ]
}

#[test]
fn picks_the_first_gpus_with_room() {
    let free = vec![(0, 100), (1, 900), (2, 1900)];
    let req = GpuRequirement { count: 2, min_free_mem_bytes: Some(500) };
    let got = select_gpus(&infos(), &vec![980, 980, 1960], &vec![0, 1, 2], &vec![], &free, req);
    assert_eq!(got, Some(vec![1, 2]));
}

#[test]
fn reservations_count_against_a_gpu() {
    let free = vec![(0, 1000), (1, 1000), (2, 2000)];
    let allocs = vec![(7, vec![(1, 600)]), (8, vec![(2, 1000), (1, 100)])];
    assert_eq!(reserved_bytes(&allocs, 1), 700);
    assert_eq!(reserved_bytes(&allocs, 2), 1000);
    let req = GpuRequirement { count: 3, min_free_mem_bytes: Some(500) };
    assert_eq!(select_gpus(&infos(), &vec![0, 0, 0], &vec![0, 1, 2], &allocs, &free, req), None);
    let req = GpuRequirement { count: 2, min_free_mem_bytes: Some(500) };
    assert_eq!(select_gpus(&infos(), &vec![0, 0, 0], &vec![0, 1, 2], &allocs, &free, req), Some(vec![0, 2]));
}

#[test]
fn threshold_share_and_pool() {
    let free = vec![(0, 1000), (1, 1000), (2, 2000)];
    let req = GpuRequirement { count: 1, min_free_mem_bytes: None };
    let got = select_gpus(&infos(), &vec![980, 980, 1960], &vec![2], &vec![], &free, req);
    assert_eq!(got, Some(vec![2]));
    assert_eq!(reserve_for_index(&infos(), &vec![980, 981, 1960], 1), 981);
    assert_eq!(reserve_for_index(&infos(), &vec![980, 981, 1960], 9), 0);
}

#[test]
fn last_report_counts_and_missing_is_zero() {
    let free = vec![(0, 5), (1, 6), (0, 7)];
    assert_eq!(lookup_free(&free, 0), 7);
    assert_eq!(lookup_free(&free, 3), 0);
}

#[test]
fn saturating_reservations() {
    let allocs = vec![(1, vec![(0, u64::MAX)]), (2, vec![(0, 5)])];
    assert_eq!(reserved_bytes(&allocs, 0), u64::MAX);
}

#[test]
fn gpus_from_nvml_answers() {
    let answers = vec![Some(8_000), None, Some(16_000)];
    let gpus = gpus_from_answers(&answers);
    assert_eq!(gpus.len(), 2);
    assert_eq!((gpus[0].index, gpus[0].total_memory_bytes), (0, 8_000));
    assert_eq!((gpus[1].index, gpus[1].total_memory_bytes), (2, 16_000));
    assert!(gpus_from_answers(&vec![None, None]).is_empty());
    assert!(gpus_from_answers(&vec![]).is_empty());
}

#[test]
fn free_memory_from_nvml_answers() {
    let ids = vec![3, 1, 2];
    let answers = vec![Some(500), None, Some(700)];
    assert_eq!(free_from_answers(&ids, &answers), vec![(3, 500), (2, 700)]);
    assert_eq!(free_from_answers(&ids, &vec![None, None, None]), Vec::<(u32, u64)>::new());
}
