use std::time::Instant;

#[test]
fn test_timing() {
    let t1 = Instant::now();
    let t2 = Instant::now();
    println!("Without asm elapsed {}", t2.duration_since(t1).as_nanos());
}

#[test]
fn test_timing_asm_separate() {
    let t1 = Instant::now();
    let t2 = Instant::now();
    let t3 = Instant::now();
    println!(
        "Asm separate elapsed 1-2: {}, elapsed 2-3: {}, elapsed 1-3: {},",
        t2.duration_since(t1).as_nanos(),
        t3.duration_since(t2).as_nanos(),
        t3.duration_since(t1).as_nanos()
    );
}
