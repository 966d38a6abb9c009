use systemhog::metrics::{cpu_sample_from, mem_info_from};

#[test]
fn proc_stat_first_line() {
    let text = "cpu  10 20 30 400 50 6 7 8 9 10\ncpu0 1 2 3 4 5 6 7 8\n";
    let s = cpu_sample_from(text).unwrap();
    assert_eq!(s.total, 10 + 20 + 30 + 400 + 50 + 6 + 7 + 8);
    assert_eq!(s.idle, 450);
    assert!(cpu_sample_from("cpu 1 2 3\n").is_none());
    assert!(cpu_sample_from("cpu 1 2 3 x 5 6 7 8\n").is_none());
    assert!(cpu_sample_from("").is_none());
}

#[test]
fn proc_meminfo() {
    let text = "MemTotal:       16000000 kB\nMemFree:         1000000 kB\nMemAvailable:    8000000 kB\nBuffers: 1 kB\n";
    let m = mem_info_from(text).unwrap();
    assert_eq!((m.total_kb, m.avail_kb), (16000000, 8000000));
    let old = "MemTotal: 100 kB\nMemFree: 10 kB\nBuffers: 20 kB\nCached: 30 kB\nnoise\n";
    let m = mem_info_from(old).unwrap();
    assert_eq!((m.total_kb, m.avail_kb), (100, 60));
    assert!(mem_info_from("MemFree: 10 kB\n").is_none());
    assert!(mem_info_from("MemTotal: junk\n").is_none());
}
