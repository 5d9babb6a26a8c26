use z_sight::processes::{top_processes, ProcessSample, TOP_N};

fn sample(name: &str, memory: u64, is_thread: bool) -> ProcessSample {
    ProcessSample { name: name.to_string(), memory, is_thread }
}

#[test]
fn top_keeps_five_largest_processes() {
    let samples = vec![
        sample("a", 10, false),
        sample("b", 70, false),
        sample("t", 1000, true),
        sample("c", 30, false),
        sample("d", 70, false),
        sample("e", 5, false),
        sample("f", 40, false),
        sample("g", 20, false),
    ];
    let top = top_processes(samples).unwrap();
    assert_eq!(top.len(), TOP_N);
    let names: Vec<&str> = top.iter().map(|p| p.name.as_str()).collect();
    // Threads are left out; equal memory keeps sample order.
    assert_eq!(names, vec!["b", "d", "f", "c", "g"]);
    let mem: Vec<u64> = top.iter().map(|p| p.memory).collect();
    assert_eq!(mem, vec![70, 70, 40, 30, 20]);
}

#[test]
fn top_with_few_processes() {
    assert!(top_processes(Vec::new()).unwrap().is_empty());
    let top = top_processes(vec![sample("x", 1, false), sample("y", 1, true)]).unwrap();
    assert_eq!(top.len(), 1);
    assert_eq!(top[0].name, "x");
}

#[test]
fn long_names_are_cut() {
    let top = top_processes(vec![
        sample("exactly14bytes", 3, false),
        sample("fifteen-bytes-x", 2, false),
        sample("ééééééé", 1, false),
    ])
    .unwrap();
    assert_eq!(top[0].name, "exactly14bytes");
    assert_eq!(top[1].name, "fifteen-bytes…");
    // 14 bytes of two-byte characters are shown whole.
    assert_eq!(top[2].name, "ééééééé");
}

#[test]
fn multibyte_names_cut_on_boundary() {
    // 'a' + 7 two-byte characters: byte 13 ends the 6th 'é'.
    let top = top_processes(vec![sample("aéééééééé", 1, false)]).unwrap();
    assert_eq!(top[0].name, "aéééééé…");
}

#[test]
fn name_that_cannot_be_cut_gives_none() {
    // 16 bytes of two-byte characters: byte 13 falls inside the 7th.
    assert!(top_processes(vec![sample("éééééééé", 1, false)]).is_none());
    // The same name outside the top five does not matter.
    let mut samples = vec![sample("éééééééé", 1, false)];
    for i in 0..5 {
        samples.push(sample(&format!("p{i}"), 10, false));
    }
    assert_eq!(top_processes(samples).unwrap().len(), 5);
}
