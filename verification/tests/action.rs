use matrix_gen::Action;

#[test]
fn content_returns_inner_string() {
    assert_eq!(
        Action::Speak {
            content: "s".into()
        }
        .content(),
        "s"
    );
    assert_eq!(
        Action::React {
            to: 0,
            content: "r".into()
        }
        .content(),
        "r"
    );
    assert_eq!(
        Action::AdvancePlan {
            step: 0,
            content: "a".into()
        }
        .content(),
        "a"
    );
    assert_eq!(
        Action::Reflect {
            content: "f".into()
        }
        .content(),
        "f"
    );
}

#[test]
fn is_broadcast_reflect_is_false() {
    assert!(
        !Action::Reflect {
            content: "x".into()
        }
        .is_broadcast()
    );
    assert!(
        Action::Speak {
            content: "x".into()
        }
        .is_broadcast()
    );
    assert!(
        Action::React {
            to: 0,
            content: "x".into()
        }
        .is_broadcast()
    );
    assert!(
        Action::AdvancePlan {
            step: 0,
            content: "x".into()
        }
        .is_broadcast()
    );
}
