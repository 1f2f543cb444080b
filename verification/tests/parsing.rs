use blk_config::parse_config;
use blk_config::{BlkBlock, BlkConfig, BlkEntry, BlkProperty, BlkPropertyValue, BlkSection};

#[test]
fn parser_test_parse_empty_config() {
    let input = "";
    let result = parse_config(input);

    assert!(result.is_ok());

    let (remaining, config) = result.unwrap();

    assert_eq!(remaining, "");
    assert!(config.block.entries.is_empty());
}

#[test]
fn parser_test_parse_integer() {
    let input = "age:i=30;";
    let result = parse_config(input);

    assert!(result.is_ok());

    let (remaining, config) = result.unwrap();

    assert_eq!(remaining, "");
    assert!(config.block.entries.len() == 1);

    if let BlkEntry::Property(prop) = &config.block.entries[0] {
        assert_eq!(prop.key, "age");
        assert_eq!(prop.value, BlkPropertyValue::Integer(30));
    } else {
        panic!("Expected a property entry");
    }
}

#[test]
fn parser_test_parse_sections() {
    let input = "meow:t=\"uwu\";uwu{owo:i=32;};";
    let result = parse_config(input);

    assert!(result.is_ok());

    let (remaining, config) = result.unwrap();

    assert_eq!(remaining, "");
    assert_eq!(config, BlkConfig {
        block: BlkBlock {
            entries: vec![
                BlkEntry::Property(BlkProperty {
                    key: "meow".to_string(),
                    value: BlkPropertyValue::Text("uwu".to_string())
                }),
                BlkEntry::Section(BlkSection {
                    name: "uwu".to_string(),
                    entries: vec![
                        BlkEntry::Property(BlkProperty {
                            key: "owo".to_string(),
                            value: BlkPropertyValue::Integer(32)
                        })
                    ]
                })
            ]
        }
    })
}

#[test]
fn parser_test_parse_config_with_whitespaces() {
    let input = "    wuu:i=23;    uuw:t=\"UwU\";    ";
    let result = parse_config(input);

    assert!(result.is_ok());

    let (remaining, config) = result.unwrap();

    assert_eq!(remaining, "");
    assert_eq!(config.block.entries.len(), 2);
}

#[test]
fn parser_test_parse_sections_with_whitespace() {
    let input = "   meow{  uwu:i=1;      owo:i=5;   };";
    let result = parse_config(input);

    assert!(result.is_ok());

    let (remaining, config) = result.unwrap();

    assert_eq!(remaining, "");
    assert_eq!(config.block.entries.len(), 1);
}

#[test]
fn parser_test_parse_multiline_config() {
    let input = r#"
            input{
                owo:i=32
                uwu:t="uwu"

                output{
                    someText:t="OwO"
                }
            }
        "#;
    let result = parse_config(input);

    assert!(result.is_ok());

    let (remaining, config) = result.unwrap();

    assert_eq!(remaining, "");
    assert_eq!(config, BlkConfig {
        block: BlkBlock { entries: vec![
            BlkEntry::Section(BlkSection {
                name: "input".to_string(),
                entries: vec![
                    BlkEntry::Property(BlkProperty {
                        key: "owo".to_string(),
                        value: BlkPropertyValue::Integer(32)
                    }),
                    BlkEntry::Property(BlkProperty {
                        key: "uwu".to_string(),
                        value: BlkPropertyValue::Text("uwu".to_string())
                    }),
                    BlkEntry::Section(BlkSection {
                        name: "output".to_string(),
                        entries: vec![
                            BlkEntry::Property(BlkProperty {
                                key: "someText".to_string(),
                                value: BlkPropertyValue::Text("OwO".to_string())
                            })
                        ]
                    })
                ]
            })
        ] }
    })
}

#[test]
fn parser_test_parse_example_1() {
    let input = r#"
            cloudsQuality:t="medium"
            use_gamepad_cursor_control:b=no
            use_gamepad_interface:b=no
            hdClient:b=no
            clientType:t="32bit"

            graphics{
              enableSuspensionAnimation:b=no
              rendinstDistMul:r=0.5
              grassRadiusMul:r=0.1
              shadowQuality:t="ultralow"
              tireTracksQuality:i=0
              skyQuality:i=2
              cloudsQuality:i=2
            }
        "#;
    let result = parse_config(input);

    assert!(result.is_ok());

    let (remaining, config) = result.unwrap();

    assert_eq!(remaining, "");

    // asserting full structure is too cumbersome here so just check key parts
    assert_eq!(config.block.entries.len(), 6); // 1 section + 5 properties
}

#[test]
fn parser_test_parse_example_2() {
    let input = r#"
            drawLines{
                line{ line:p4=0.35, -1, 0.35, 0; move:b=no; }
                line{ line:p4=115, +10000, 117, 0; move:b=no; thousandth:b=yes; }
            }
        "#;
    let result = parse_config(input);

    assert!(result.is_ok());

    let (remaining, config) = result.unwrap();

    assert_eq!(remaining, "");

    // asserting full structure is too cumbersome here so just check key parts
    assert_eq!(config.block.entries.len(), 1); // 1 section
}

#[test]
fn parser_test_parse_example_3() {
    let input = r#"
            controls{
                version:i=200

                basePresetPaths{
                    default:t="base/preset/path.blk"
                }

                hotkeys{
                    ID_AAM{
                      mouseButton:i=1
                    }

                    ID_ACTION_BAR_ITEM_1{
                        keyboardKey:i=1
                    }
                }

                axes{
                    ailerons{
                        mouseAxisId:i=0
                    }
                }

                params{
                    trackIrZoom:b=no
                }

                deviceMapping{
                    joystick{
                        connected:b=no
                        devId:t="1234:ABCD"
                        axesOffset:i=0
                    }
                }
            }

            settings{
                aileronsMultiplier:r=0.9
            }
        "#;
    let result = parse_config(input);

    assert!(result.is_ok());

    let (remaining, config) = result.unwrap();

    assert_eq!(remaining, "");

    // asserting full structure is too cumbersome here so just check key parts
    assert_eq!(config.block.entries.len(), 2); // 2 sections
}

#[test]
fn blk_test_parse_empty_config() {
    let input = "";
    let result = parse_config(input);

    assert!(result.is_ok());

    let (remaining, config) = result.unwrap();

    assert_eq!(remaining, "");
    assert!(config.block.entries.is_empty());
}

#[test]
fn blk_test_parse_integer() {
    let input = "age:i=30;";
    let result = parse_config(input);

    assert!(result.is_ok());

    let (remaining, config) = result.unwrap();

    assert_eq!(remaining, "");
    assert!(config.block.entries.len() == 1);

    if let BlkEntry::Property(prop) = &config.block.entries[0] {
        assert_eq!(prop.key, "age");
        assert_eq!(prop.value, BlkPropertyValue::Integer(30));
    } else {
        panic!("Expected a property entry");
    }
}

#[test]
fn test_parse_with_crlf() {
    let input = "meow:t=\"uwu\";\r\nuwu{owo:i=32;};";
    let result = parse_config(input);

    assert!(result.is_ok());

    let (remaining, config) = result.unwrap();

    assert_eq!(remaining, "");
    assert_eq!(config, BlkConfig {
        block: BlkBlock {
            entries: vec![
                BlkEntry::Property(BlkProperty {
                    key: "meow".to_string(),
                    value: BlkPropertyValue::Text("uwu".to_string())
                }),
                BlkEntry::Section(BlkSection {
                    name: "uwu".to_string(),
                    entries: vec![
                        BlkEntry::Property(BlkProperty {
                            key: "owo".to_string(),
                            value: BlkPropertyValue::Integer(32)
                        })
                    ]
                })
            ]
        }
    })
}

#[test]
fn blk_test_parse_sections() {
    let input = "meow:t=\"uwu\";uwu{owo:i=32;};";
    let result = parse_config(input);

    assert!(result.is_ok());

    let (remaining, config) = result.unwrap();

    assert_eq!(remaining, "");
    assert_eq!(config, BlkConfig {
        block: BlkBlock {
            entries: vec![
                BlkEntry::Property(BlkProperty {
                    key: "meow".to_string(),
                    value: BlkPropertyValue::Text("uwu".to_string())
                }),
                BlkEntry::Section(BlkSection {
                    name: "uwu".to_string(),
                    entries: vec![
                        BlkEntry::Property(BlkProperty {
                            key: "owo".to_string(),
                            value: BlkPropertyValue::Integer(32)
                        })
                    ]
                })
            ]
        }
    })
}

#[test]
fn blk_test_parse_config_with_whitespaces() {
    let input = "    wuu:i=23;    uuw:t=\"UwU\";    ";
    let result = parse_config(input);

    assert!(result.is_ok());

    let (remaining, config) = result.unwrap();

    assert_eq!(remaining, "");
    assert_eq!(config.block.entries.len(), 2);
}

#[test]
fn blk_test_parse_sections_with_whitespace() {
    let input = "   meow{  uwu:i=1;      owo:i=5;   };";
    let result = parse_config(input);

    assert!(result.is_ok());

    let (remaining, config) = result.unwrap();

    assert_eq!(remaining, "");
    assert_eq!(config.block.entries.len(), 1);
}

#[test]
fn blk_test_parse_multiline_config() {
    let input = r#"
            input{
                owo:i=32
                uwu:t="uwu"

                output{
                    someText:t="OwO"
                }
            }
        "#;
    let result = parse_config(input);

    assert!(result.is_ok());

    let (remaining, config) = result.unwrap();

    assert_eq!(remaining, "");
    assert_eq!(config, BlkConfig {
        block: BlkBlock { entries: vec![
            BlkEntry::Section(BlkSection {
                name: "input".to_string(),
                entries: vec![
                    BlkEntry::Property(BlkProperty {
                        key: "owo".to_string(),
                        value: BlkPropertyValue::Integer(32)
                    }),
                    BlkEntry::Property(BlkProperty {
                        key: "uwu".to_string(),
                        value: BlkPropertyValue::Text("uwu".to_string())
                    }),
                    BlkEntry::Section(BlkSection {
                        name: "output".to_string(),
                        entries: vec![
                            BlkEntry::Property(BlkProperty {
                                key: "someText".to_string(),
                                value: BlkPropertyValue::Text("OwO".to_string())
                            })
                        ]
                    })
                ]
            })
        ] }
    })
}

#[test]
fn blk_test_parse_example_1() {
    let input = r#"
            cloudsQuality:t="medium"
            use_gamepad_cursor_control:b=no
            use_gamepad_interface:b=no
            hdClient:b=no
            clientType:t="32bit"

            graphics{
              enableSuspensionAnimation:b=no
              rendinstDistMul:r=0.5
              grassRadiusMul:r=0.1
              shadowQuality:t="ultralow"
              tireTracksQuality:i=0
              skyQuality:i=2
              cloudsQuality:i=2
            }
        "#;
    let result = parse_config(input);

    assert!(result.is_ok());

    let (remaining, config) = result.unwrap();

    assert_eq!(remaining, "");

    // asserting full structure is too cumbersome here so just check key parts
    assert_eq!(config.block.entries.len(), 6); // 1 section + 5 properties
}

#[test]
fn blk_test_parse_example_2() {
    let input = r#"
            drawLines{
                line{ line:p4=0.35, -1, 0.35, 0; move:b=no; }
                line{ line:p4=115, +10000, 117, 0; move:b=no; thousandth:b=yes; }
            }
        "#;
    let result = parse_config(input);

    assert!(result.is_ok());

    let (remaining, config) = result.unwrap();

    assert_eq!(remaining, "");

    // asserting full structure is too cumbersome here so just check key parts
    assert_eq!(config.block.entries.len(), 1); // 1 section
}

#[test]
fn blk_test_parse_example_3() {
    let input = r#"
            controls{
                version:i=200

                basePresetPaths{
                    default:t="base/preset/path.blk"
                }

                hotkeys{
                    ID_AAM{
                      mouseButton:i=1
                    }

                    ID_ACTION_BAR_ITEM_1{
                        keyboardKey:i=1
                    }
                }

                axes{
                    ailerons{
                        mouseAxisId:i=0
                    }
                }

                params{
                    trackIrZoom:b=no
                }

                deviceMapping{
                    joystick{
                        connected:b=no
                        devId:t="1234:ABCD"
                        axesOffset:i=0
                    }
                }
            }

            settings{
                aileronsMultiplier:r=0.9
            }
        "#;
    let result = parse_config(input);

    assert!(result.is_ok());

    let (remaining, config) = result.unwrap();

    assert_eq!(remaining, "");

    // asserting full structure is too cumbersome here so just check key parts
    assert_eq!(config.block.entries.len(), 2); // 2 sections
}
