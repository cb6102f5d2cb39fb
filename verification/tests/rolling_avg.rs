use rust_voice::rolling_avg::Average;

#[test]
fn avg_i32_f32_unfinished() {
    let mut avg: Average<5, i32> = Average::new();
    avg.push(-10);
    avg.push(21);
    assert_eq!(avg.avg::<f32>(), 5.5);
}

#[test]
fn avg_f64_i32() {
    let mut avg: Average<5, f64> = Average::new();
    avg.push(99999999.0);
    avg.push(100.2);
    avg.push(10.66);
    avg.push(45.1203);
    avg.push(78.999);
    avg.push(101.0);
    assert_eq!(avg.avg::<i32>(), 66);
}

#[test]
fn avg_usize_f32() {
    let mut avg: Average<5, usize> = Average::new();
    avg.push(99999999);
    avg.push(100);
    avg.push(10);
    avg.push(45);
    avg.push(78);
    avg.push(101);
    assert_eq!(avg.avg::<f32>(), 66.8);
}

#[test]
fn avg_usize_f64() {
    let mut avg: Average<5, usize> = Average::new();
    avg.push(99999999);
    avg.push(100);
    avg.push(10);
    avg.push(45);
    avg.push(78);
    avg.push(101);
    assert_eq!(avg.avg::<f64>(), 66.8);
}

#[test]
fn avg_f64_f64() {
    let mut avg: Average<5, f64> = Average::new();
    avg.push(99999999.0);
    avg.push(100.2);
    avg.push(10.66);
    avg.push(45.1203);
    avg.push(78.999);
    avg.push(101.0);
    assert_eq!(avg.avg::<f64>(), 67.19586);
}
