use atlas_sphere::gpu_query::{parse_gpu_query, parse_gpu_query_checked, parse_memory_status, GpuDeviceRow, MemoryReading};

fn row(id: u32, name: &str, total_mib: u64, free_mib: u64, sm: u32, mem: u32, cc: &str) -> GpuDeviceRow {
    GpuDeviceRow {
        device_id: id,
        name: name.to_string(),
        total_memory: total_mib * 1024 * 1024,
        available_memory: free_mib * 1024 * 1024,
        clock_speed_mhz: sm,
        mem_clock_mhz: mem,
        compute_capability: cc.to_string(),
    }
}

#[test]
fn parses_nvidia_smi_rows() {
    let report = "0, NVIDIA A100-SXM4-40GB, 40960, 40000, 1410, 1215, 8.0\n1, NVIDIA T4, 15360, 15000, 1590, 5001, 7.5\n";
    let rows = parse_gpu_query(report);
    assert_eq!(rows, vec![row(0, "NVIDIA A100-SXM4-40GB", 40960, 40000, 1410, 1215, "8.0"), row(1, "NVIDIA T4", 15360, 15000, 1590, 5001, "7.5")]);
}

#[test]
fn skips_blank_and_short_lines_and_zeroes_bad_numbers() {
    let report = "\r\n   \n0, GPU, 1, 1\n x , Card , n/a , 2 , 99999999999 , 7 ,  9.0  ,extra\r\n";
    let rows = parse_gpu_query(report);
    assert_eq!(rows, vec![row(0, "Card", 0, 2, 0, 7, "9.0")]);
    assert!(parse_gpu_query("").is_empty());
}

#[test]
fn memory_overflow_is_reported() {
    let huge = format!("0, G, {}, 1, 1, 1, 1.0\n", u64::MAX);
    assert!(parse_gpu_query_checked(&huge).is_none());
    assert_eq!(parse_gpu_query_checked("0, G, 1, 1, 1, 1, 1.0").unwrap().len(), 1);
}

#[test]
fn memory_status_reads_first_line() {
    assert_eq!(parse_memory_status("100, 200\n300, 400\n"), MemoryReading::Read(100 * 1048576, 200 * 1048576));
    assert_eq!(parse_memory_status(" 7 ,x\r\n"), MemoryReading::Read(7 * 1048576, 0));
    assert_eq!(parse_memory_status(""), MemoryReading::Unreadable);
    assert_eq!(parse_memory_status("\n100, 200"), MemoryReading::Unreadable);
    assert_eq!(parse_memory_status("1, 2, 3"), MemoryReading::Unreadable);
    assert_eq!(parse_memory_status(&format!("{}, 1", u64::MAX)), MemoryReading::Overflow);
}
