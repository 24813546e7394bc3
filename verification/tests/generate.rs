use circle::generate::{
    color_string, gen_layer, gen_obj_layer_list, layer_name, LayerOutline, COLOR_MAX, MAX_CIRCLES,
    MIN_CIRCLES,
};
use circle::text::{push_decimal, push_hex};

#[test]
fn test_gen_layer_list() {
    let mut rng = rand::thread_rng();
    let n = 5;
    let layers = gen_obj_layer_list(&mut rng, n);

    assert_eq!(layers.len(), n.try_into().unwrap());

    for (i, layer) in layers.iter().enumerate() {
        assert_eq!(layers.len(), n.try_into().unwrap());

        assert!(layer.circle_count >= 20 && layer.circle_count <= 50);

        assert_eq!(layer.name, format!("Layer {}", i + 1));
        assert_eq!(layer.color.chars().count(), 9);
    }
}

#[test]
fn generated_colors_are_hash_and_eight_hex_digits() {
    let mut rng = rand::thread_rng();
    let layers = gen_obj_layer_list(&mut rng, 40);
    assert_eq!(layers.len(), 40);
    for layer in &layers {
        let chars: Vec<char> = layer.color.chars().collect();
        assert_eq!(chars.len(), 9);
        assert_eq!(chars[0], '#');
        for c in &chars[1..] {
            assert!(matches!(*c, '0'..='9' | 'a'..='f'));
        }
    }
}

#[test]
fn no_layers_for_zero() {
    let mut rng = rand::thread_rng();
    assert_eq!(gen_obj_layer_list(&mut rng, 0), Vec::<LayerOutline>::new());
}

#[test]
fn no_layers_for_a_negative_count() {
    let mut rng = rand::thread_rng();
    assert!(gen_obj_layer_list(&mut rng, -3).is_empty());
    assert!(gen_obj_layer_list(&mut rng, i64::MIN).is_empty());
}

#[test]
fn one_layer_is_layer_one() {
    let mut rng = rand::thread_rng();
    let layers = gen_obj_layer_list(&mut rng, 1);
    assert_eq!(layers.len(), 1);
    assert_eq!(layers[0].name, "Layer 1");
}

#[test]
fn names_count_past_nine() {
    let mut rng = rand::thread_rng();
    let layers = gen_obj_layer_list(&mut rng, 12);
    assert_eq!(layers[8].name, "Layer 9");
    assert_eq!(layers[9].name, "Layer 10");
    assert_eq!(layers[11].name, "Layer 12");
}

#[test]
fn gen_layer_keeps_name_and_color() {
    let mut rng = rand::thread_rng();
    for _ in 0..200 {
        let outline = gen_layer(String::from("top"), String::from("#00ff00ff"), &mut rng);
        assert_eq!(outline.name, "top");
        assert_eq!(outline.color, "#00ff00ff");
        assert!(outline.circle_count >= 20);
        assert!(outline.circle_count <= 50);
    }
}

#[test]
fn circle_counts_vary() {
    let mut rng = rand::thread_rng();
    let first = gen_layer(String::new(), String::new(), &mut rng).circle_count;
    let mut differs = false;
    for _ in 0..500 {
        if gen_layer(String::new(), String::new(), &mut rng).circle_count != first {
            differs = true;
        }
    }
    assert!(differs);
}

#[test]
fn colors_vary() {
    let mut rng = rand::thread_rng();
    let layers = gen_obj_layer_list(&mut rng, 64);
    let first = &layers[0].color;
    assert!(layers.iter().any(|layer| layer.color != *first));
    assert!(layers.iter().any(|layer| layer.color != "#00000000"));
}

#[test]
fn generator_limits() {
    assert_eq!(MIN_CIRCLES, 20);
    assert_eq!(MAX_CIRCLES, 50);
    assert_eq!(COLOR_MAX, 4294967295);
}

#[test]
fn layer_names() {
    assert_eq!(layer_name(1), "Layer 1");
    assert_eq!(layer_name(0), "Layer 0");
    assert_eq!(layer_name(10), "Layer 10");
    assert_eq!(layer_name(9007), "Layer 9007");
    assert_eq!(layer_name(u64::MAX), "Layer 18446744073709551615");
}

#[test]
fn layer_names_match_std_formatting() {
    for i in [2u64, 9, 11, 99, 100, 101, 12345, 999_999_999_999] {
        assert_eq!(layer_name(i), format!("Layer {}", i));
    }
}

#[test]
fn color_strings() {
    assert_eq!(color_string(0), "#00000000");
    assert_eq!(color_string(0xFFFF_FFFF), "#ffffffff");
    assert_eq!(color_string(0x001a_2b3c), "#001a2b3c");
    assert_eq!(color_string(0xDEAD_BEEF), "#deadbeef");
    assert_eq!(color_string(10), "#0000000a");
    assert_eq!(color_string(16), "#00000010");
}

#[test]
fn color_strings_match_std_formatting() {
    for v in [1u32, 15, 255, 256, 4096, 0x8000_0000, 0x0fed_cba9, 123_456_789] {
        assert_eq!(color_string(v), format!("#{:08x}", v));
    }
}

#[test]
fn decimal_is_appended() {
    let mut s = String::from("n=");
    push_decimal(&mut s, 0);
    assert_eq!(s, "n=0");
    push_decimal(&mut s, 4071);
    assert_eq!(s, "n=04071");
}

#[test]
fn hex_is_padded_and_cut_to_width() {
    let mut s = String::new();
    push_hex(&mut s, 0xabc, 5);
    assert_eq!(s, "00abc");
    let mut t = String::new();
    push_hex(&mut t, 0x12345, 3);
    assert_eq!(t, "345");
    let mut u = String::from("x");
    push_hex(&mut u, 77, 0);
    assert_eq!(u, "x");
}
