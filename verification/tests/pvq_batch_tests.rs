use opus_rs::pvq_batch::compute_u_batch;

// A small table holding U(r, c) for rows r < 15 and columns c < 8, row by row.
fn small_table() -> ([u32; 15], Vec<u32>) {
    let mut rows = [0u32; 15];
    let mut data = Vec::new();
    for r in 0..15u32 {
        rows[r as usize] = data.len() as u32;
        for c in 0..8u32 {
            data.push(100 * r + c);
        }
    }
    (rows, data)
}

#[test]
fn compute_u_batch_reads_table_and_falls_back() {
    let (rows, data) = small_table();
    let mut u = vec![9999u32; 12];
    compute_u_batch(10, 3, &mut u, &rows, &data, |m, k| 1_000_000 + 10 * m + k);
    // entries outside 2..=10 are untouched
    assert_eq!(u[0], 9999);
    assert_eq!(u[1], 9999);
    assert_eq!(u[11], 9999);
    // m = 2: row min(2, 3) = 2, column 3
    assert_eq!(u[2], 203);
    // m = 3: row 3, column 3
    assert_eq!(u[3], 303);
    // m = 7: row 3, column 7
    assert_eq!(u[7], 307);
    // m = 8: row 3 starts at 24, column 8 gives index 32 = row 4, column 0
    assert_eq!(u[8], 400);
    // m = 10: index 24 + 10 = 34 is still inside the data
    assert_eq!(u[10], 402);
}

#[test]
fn compute_u_batch_uses_fallback_past_the_table() {
    let (rows, data) = small_table();
    let mut u = vec![0u32; 200];
    compute_u_batch(150, 20, &mut u, &rows, &data, |m, k| 1_000_000 + 10 * m + k);
    // row min(m, 20) is 15 or more for m >= 15
    assert_eq!(u[15], 1_000_000 + 150 + 20);
    assert_eq!(u[150], 1_000_000 + 1500 + 20);
    // m = 2: row 2 starts at 16, column 20 gives index 36
    assert_eq!(u[2], 404);
    // m = 14: row 14 starts at 112, column 20 gives index 132, past the data
    assert_eq!(u[14], 1_000_000 + 140 + 20);
    assert_eq!(u[0], 0);
    assert_eq!(u[151], 0);
}

#[test]
fn compute_u_batch_small_n_changes_nothing() {
    let (rows, data) = small_table();
    let mut u = vec![5u32; 2];
    compute_u_batch(1, 4, &mut u, &rows, &data, |_, _| 0);
    assert_eq!(u, vec![5, 5]);
}
