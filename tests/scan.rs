use ip_sniffer::collect::finalize_ports;
use ip_sniffer::partition::{plan_tasks, ScanTask, MAX_PORT};
use ip_sniffer::report::{port_line, report_lines};
use ip_sniffer::worker::{advance, ProbeOutcome};

/// Runs one worker's task against a target listening on `listening`,
/// returning the ports it reports, in order.
fn run_worker(task: &ScanTask, listening: &[u16]) -> Vec<u16> {
    let mut reported = Vec::new();
    let mut port = task.first_port();
    loop {
        let outcome = if listening.contains(&port) {
            ProbeOutcome::Open
        } else {
            ProbeOutcome::Closed
        };
        let step = advance(task, port, outcome);
        if let Some(p) = step.report {
            reported.push(p);
        }
        match step.next {
            Some(q) => port = q,
            None => break,
        }
    }
    reported
}

/// Runs a whole scan with `workers` workers; the reports reach the collector
/// worker by worker, last worker first.
fn run_scan(workers: u16, listening: &[u16]) -> Vec<u16> {
    let mut received = Vec::new();
    for task in plan_tasks(workers).iter().rev() {
        received.extend(run_worker(task, listening));
    }
    finalize_ports(&received)
}

#[test]
fn classes_cover_every_port_once() {
    for workers in [1u16, 2, 3, 4, 7, 16, 1000, 65535] {
        let mut seen = vec![0u32; 65536];
        for task in plan_tasks(workers) {
            for p in task.ports() {
                seen[p as usize] += 1;
            }
        }
        assert_eq!(seen[0], 0);
        assert!(seen[1..].iter().all(|&n| n == 1), "workers = {}", workers);
    }
}

#[test]
fn plan_has_one_task_per_worker() {
    let tasks = plan_tasks(4);
    assert_eq!(tasks.len(), 4);
    for (i, t) in tasks.iter().enumerate() {
        assert_eq!(t.offset as usize, i);
        assert_eq!(t.stride, 4);
    }
    assert!(plan_tasks(0).is_empty());
}

#[test]
fn task_ports_ascend_by_stride() {
    let t = ScanTask::new(2, 4);
    let ports = t.ports();
    assert_eq!(ports[0], 3);
    assert_eq!(ports[1], 7);
    assert_eq!(*ports.last().unwrap(), 65535);
    assert_eq!(ports.len(), 16384);
    let single = ScanTask::new(0, 65535).ports();
    assert_eq!(single, vec![1]);
    let last = ScanTask::new(65534, 65535).ports();
    assert_eq!(last, vec![65535]);
}

#[test]
fn worker_stops_before_leaving_range() {
    let t = ScanTask::new(0, 4);
    assert_eq!(t.next_after(65533), None);
    assert_eq!(t.next_after(65529), Some(65533));
    let whole = ScanTask::new(0, 1);
    assert_eq!(whole.next_after(MAX_PORT), None);
    assert_eq!(whole.next_after(1), Some(2));
}

#[test]
fn advance_reports_only_open_ports() {
    let t = ScanTask::new(1, 3);
    let open = advance(&t, 5, ProbeOutcome::Open);
    assert_eq!(open.report, Some(5));
    assert_eq!(open.next, Some(8));
    let closed = advance(&t, 5, ProbeOutcome::Closed);
    assert_eq!(closed.report, None);
    assert_eq!(closed.next, Some(8));
}

#[test]
fn loopback_80_and_443_with_four_workers() {
    let listing = run_scan(4, &[443, 80]);
    assert_eq!(listing, vec![80, 443]);
    let lines = report_lines(&listing);
    assert_eq!(lines, vec!["port 80 is open".to_string(), "port 443 is open".to_string()]);
}

#[test]
fn one_worker_matches_sixteen() {
    let listening = [22u16, 80, 443, 8080, 65535, 1];
    let one = run_scan(1, &listening);
    let sixteen = run_scan(16, &listening);
    assert_eq!(one, sixteen);
    assert_eq!(one, vec![1, 22, 80, 443, 8080, 65535]);
}

#[test]
fn listing_is_listening_set_for_any_worker_count() {
    let listening = [5u16, 1000, 3, 40000];
    for workers in [1u16, 2, 5, 999, 65535] {
        assert_eq!(run_scan(workers, &listening), vec![3, 5, 1000, 40000]);
    }
}

#[test]
fn no_listeners_gives_empty_listing() {
    assert!(run_scan(4, &[]).is_empty());
    assert!(report_lines(&run_scan(1, &[])).is_empty());
}

#[test]
fn finalize_sorts_and_drops_repeats() {
    assert_eq!(finalize_ports(&vec![443, 80, 443, 22, 80]), vec![22, 80, 443]);
    assert_eq!(finalize_ports(&vec![]), Vec::<u16>::new());
    assert_eq!(finalize_ports(&vec![65535, 1]), vec![1, 65535]);
}

#[test]
fn port_lines_write_decimal() {
    assert_eq!(port_line(1), "port 1 is open");
    assert_eq!(port_line(10), "port 10 is open");
    assert_eq!(port_line(65535), "port 65535 is open");
    assert_eq!(port_line(0), "port 0 is open");
}
