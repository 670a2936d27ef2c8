use pot_rs::cpu::{allocation_from_utf8, allocation_to_string, get_cpu, get_potcpuconstraints, rebalance, requested_cpus};
use pot_rs::error::PotError;

#[test]
fn allocation_parses_cpuset_output() {
    let r = allocation_from_utf8(b"jail 3 mask: 0, 1, 5\nextra: 9\n");
    assert_eq!(r, Ok(vec![0, 1, 5]));
    let r = allocation_from_utf8(b"mask: 2,x, 4\r\n");
    assert_eq!(r, Ok(vec![2, 4]));
}

#[test]
fn allocation_errors() {
    assert_eq!(allocation_from_utf8(b""), Err(PotError::CpuSetNoOutput));
    assert_eq!(allocation_from_utf8(b"no colon here"), Err(PotError::CpuSetMalformed));
    assert_eq!(allocation_from_utf8(&[0xff, 0xfe]), Err(PotError::Utf8Error));
}

#[test]
fn allocation_text() {
    assert_eq!(allocation_to_string(&vec![0, 1, 2, 3], 4), "not restricted");
    assert_eq!(allocation_to_string(&vec![0, 12], 4), "0 12 ");
    assert_eq!(allocation_to_string(&vec![], 4), "");
}

#[test]
fn constraints_skip_unrestricted() {
    let allocs = vec![
        ("a".to_string(), vec![0, 1, 2, 3]),
        ("b".to_string(), vec![1]),
        ("c".to_string(), vec![2, 3]),
    ];
    let c = get_potcpuconstraints(&allocs, 4);
    assert_eq!(c, vec![("b".to_string(), 1), ("c".to_string(), 2)]);
}

#[test]
fn cpu_loads_count_constrained_jails() {
    let allocs = vec![
        ("a".to_string(), vec![0, 1, 2, 3]),
        ("b".to_string(), vec![1]),
        ("c".to_string(), vec![1, 2]),
    ];
    assert_eq!(pot_rs::cpu::get_cpu_allocation(&allocs, 4), vec![0, 2, 1, 0]);
}

#[test]
fn get_cpu_picks_least_loaded() {
    assert_eq!(get_cpu(&vec![0, 2, 1, 0], 2), Some(vec![0, 3]));
    assert_eq!(get_cpu(&vec![3, 1, 1, 0], 3), Some(vec![3, 1, 2]));
    assert_eq!(get_cpu(&vec![0, 2, 1, 0], 4), None);
    assert_eq!(get_cpu(&vec![5, 5], 0), Some(vec![]));
}

#[test]
fn rebalance_round_robin_in_name_order() {
    let plan = rebalance(&vec![0, 3, 0, 0], vec![("z".to_string(), 2), ("a".to_string(), 3)]).unwrap();
    assert_eq!(plan, vec![("a".to_string(), vec![0, 1, 2]), ("z".to_string(), vec![3, 0])]);
    assert_eq!(rebalance(&vec![1, 1, 2], vec![("a".to_string(), 1)]), None);
    assert_eq!(rebalance(&vec![], vec![]), None);
}

#[test]
fn requested_cpus_lookup() {
    let c = vec![("b".to_string(), 1), ("c".to_string(), 2)];
    assert_eq!(requested_cpus(&c, "c"), Some(2));
    assert_eq!(requested_cpus(&c, "a"), None);
}
