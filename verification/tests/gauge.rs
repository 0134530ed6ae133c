use aicg::gauge::{context_bar, measure, Level, WIDTH};

/// The same bar, computed with double-precision numbers.
fn float_bar(used: u64, cap: u64) -> (u64, Level, String) {
    let frac = (used as f64 / cap as f64).clamp(0.0, 1.0);
    let filled = ((frac * 24.0).round() as u64).min(24);
    let level = if frac < 0.7 {
        Level::Green
    } else if frac < 0.9 {
        Level::Yellow
    } else {
        Level::Red
    };
    (filled, level, format!("{:.0}", frac * 100.0))
}

fn agrees(used: u64, cap: u64) {
    let (filled, level, percent) = float_bar(used, cap);
    let g = measure(used, cap);
    assert_eq!(g.filled, filled, "{used}/{cap}");
    assert_eq!(g.level, level, "{used}/{cap}");
    assert_eq!(g.percent.to_string(), percent, "{used}/{cap}");
}

#[test]
fn small_windows_agree_with_double_precision() {
    for cap in 1..=210 {
        for used in 0..=220 {
            agrees(used, cap);
        }
    }
}

#[test]
fn large_windows_agree_with_double_precision() {
    let mut x: u64 = 88172645463325252;
    for _ in 0..200000 {
        let mut pair = [0u64; 2];
        for p in pair.iter_mut() {
            x ^= x << 13;
            x ^= x >> 7;
            x ^= x << 17;
            *p = x >> (x % 64);
        }
        if pair[1] > 0 {
            agrees(pair[0], pair[1]);
        }
    }
    for used in [0, 1, (1 << 53) - 1, 1 << 53, (1 << 53) + 1, u64::MAX - 1024, u64::MAX - 1023, u64::MAX] {
        for cap in [1, 2, (1 << 53) - 1, 1 << 53, (1 << 53) + 1, u64::MAX - 1024, u64::MAX] {
            agrees(used, cap);
        }
    }
}

#[test]
fn ties_agree_with_double_precision() {
    // Halves of a percent and of a cell, and the thresholds of the colors.
    for k in 0..=200 {
        agrees(k, 200);
        agrees(k * 7, 1400);
    }
    for k in 0..=48 {
        agrees(k, 48);
    }
    for n in 1..=3000 {
        agrees(7 * n, 10 * n);
        agrees(9 * n, 10 * n);
    }
}

#[test]
fn renders_a_bar() {
    assert_eq!(
        context_bar(1234, Some(4096)),
        format!("ctx [\x1b[32m{}\x1b[0m{}] 1234/4096 (30%)", "█".repeat(7), "░".repeat(17))
    );
    assert_eq!(
        context_bar(75, Some(100)),
        format!("ctx [\x1b[33m{}\x1b[0m{}] 75/100 (75%)", "█".repeat(18), "░".repeat(6))
    );
    assert_eq!(
        context_bar(95, Some(100)),
        format!("ctx [\x1b[31m{}\x1b[0m{}] 95/100 (95%)", "█".repeat(23), "░".repeat(1))
    );
}

#[test]
fn unknown_window_shows_the_count() {
    assert_eq!(context_bar(1234, None), "ctx [1234 tokens, window unknown]");
    assert_eq!(context_bar(0, Some(0)), "ctx [0 tokens, window unknown]");
}

#[test]
fn full_and_empty_windows() {
    for cap in [1, 3, 4096, u64::MAX] {
        let empty = measure(0, cap);
        assert_eq!((empty.filled, empty.level, empty.percent), (0, Level::Green, 0));
        let full = measure(cap, cap);
        assert_eq!((full.filled, full.level, full.percent), (WIDTH, Level::Red, 100));
        let over = measure(u64::MAX, cap);
        assert_eq!((over.filled, over.level, over.percent), (WIDTH, Level::Red, 100));
    }
}

#[test]
fn bar_never_shrinks() {
    let mut last = measure(0, 137);
    for used in 0..300 {
        let g = measure(used, 137);
        assert!(g.filled >= last.filled && g.percent >= last.percent && g.percent <= 100);
        last = g;
    }
}
