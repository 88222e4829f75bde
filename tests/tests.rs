use qrcode_generator::{to_matrix, EccLevel};

#[test]
fn text_to_matrix() {
    let result = to_matrix("Hello world!".as_bytes(), EccLevel::Low).unwrap();

    assert_eq!(
        vec![
            vec![
                true, true, true, true, true, true, true, false, true, true, true, true, true,
                false, true, true, true, true, true, true, true
            ],
            vec![
                true, false, false, false, false, false, true, false, true, false, true, false,
                true, false, true, false, false, false, false, false, true
            ],
            vec![
                true, false, true, true, true, false, true, false, false, false, true, true, false,
                false, true, false, true, true, true, false, true
            ],
            vec![
                true, false, true, true, true, false, true, false, true, false, true, true, true,
                false, true, false, true, true, true, false, true
            ],
            vec![
                true, false, true, true, true, false, true, false, false, false, true, false,
                false, false, true, false, true, true, true, false, true
            ],
            vec![
                true, false, false, false, false, false, true, false, false, true, true, false,
                false, false, true, false, false, false, false, false, true
            ],
            vec![
                true, true, true, true, true, true, true, false, true, false, true, false, true,
                false, true, true, true, true, true, true, true
            ],
            vec![
                false, false, false, false, false, false, false, false, true, true, false, false,
                false, false, false, false, false, false, false, false, false
            ],
            vec![
                true, false, true, true, false, true, true, true, false, false, true, false, false,
                false, true, false, false, true, false, true, true
            ],
            vec![
                false, false, true, true, false, false, false, true, false, true, true, false,
                true, true, true, true, true, true, true, false, true
            ],
            vec![
                true, true, true, false, true, true, true, false, true, false, false, false, true,
                true, false, true, false, false, false, true, true
            ],
            vec![
                false, true, true, true, true, true, false, true, false, false, true, false, true,
                false, false, true, false, true, false, true, false
            ],
            vec![
                false, false, true, true, false, false, true, true, false, false, false, true,
                false, true, true, false, false, false, false, false, true
            ],
            vec![
                false, false, false, false, false, false, false, false, true, true, true, true,
                false, false, true, true, true, false, true, false, true
            ],
            vec![
                true, true, true, true, true, true, true, false, true, false, true, false, false,
                true, true, true, true, false, false, false, false
            ],
            vec![
                true, false, false, false, false, false, true, false, true, true, true, true, true,
                true, false, true, false, true, true, false, false
            ],
            vec![
                true, false, true, true, true, false, true, false, false, true, false, true, false,
                false, false, false, false, true, true, true, false
            ],
            vec![
                true, false, true, true, true, false, true, false, true, false, true, false, true,
                false, true, false, false, true, true, true, false
            ],
            vec![
                true, false, true, true, true, false, true, false, true, false, false, false, true,
                false, false, true, false, false, true, false, false
            ],
            vec![
                true, false, false, false, false, false, true, false, false, true, false, true,
                false, true, true, true, true, false, false, false, true
            ],
            vec![
                true, true, true, true, true, true, true, false, true, false, true, true, false,
                true, true, true, false, false, true, false, false
            ]
        ],
        result
    );
}

