use veloren::fish_small::{all_tails, all_torsos, Body, Tail, Torso};

#[test]
fn random_body_uses_known_shapes() {
    for _ in 0..20 {
        let body = Body::random();
        assert!(all_torsos().contains(&body.torso));
        assert!(all_tails().contains(&body.tail));
        assert_eq!(
            body,
            Body {
                torso: Torso::Default,
                tail: Tail::Default
            }
        );
    }
}
