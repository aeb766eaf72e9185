use bevy_svg::number::is_float;

#[test]
fn accepted_float_texts() {
    for s in ["0", "1.", ".5", "3.14", "-3.14", "+2", "2.5E10", "2.5e-10", "1e+3", "inf", "-INF", "+Infinity", "NaN", "-nan", "007"] {
        assert!(is_float(s), "{s}");
        assert!(s.parse::<f32>().is_ok(), "{s}");
    }
}

#[test]
fn refused_float_texts() {
    for s in ["", ".", "+", "e5", "1e", "1e+", "1.2.3", " 1", "1 ", "0x10", "infinit", "nana", "1,5", "--1", "1e5.0", "١"] {
        assert!(!is_float(s), "{s}");
        assert!(s.parse::<f32>().is_err(), "{s}");
    }
}

#[test]
fn agrees_with_std_parse_on_all_short_texts() {
    let alphabet = ['0', '7', '.', 'e', 'E', '+', '-', 'i', 'n', 'f', 'a', ' '];
    let mut texts: Vec<String> = vec![String::new()];
    let mut frontier: Vec<String> = vec![String::new()];
    for _ in 0..4 {
        let mut next = Vec::new();
        for t in &frontier {
            for c in alphabet {
                let mut u = t.clone();
                u.push(c);
                next.push(u);
            }
        }
        texts.extend(next.iter().cloned());
        frontier = next;
    }
    for s in ["inf", "infinity", "nan", "INFINITY", "-Infinity", "+NaN", "1.5e+07", ".0e-1"] {
        texts.push(s.to_string());
    }
    for s in &texts {
        assert_eq!(is_float(s), s.parse::<f32>().is_ok(), "{s:?}");
    }
}
