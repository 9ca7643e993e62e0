use webgl_renderer::postprocess::{passes, Pass, PassDestination, PassSource};

#[test]
fn no_effect_draws_scene_to_final_target() {
    assert_eq!(passes(0), vec![Pass { source: PassSource::Scene, destination: PassDestination::Final }]);
}

#[test]
fn effects_form_a_chain() {
    let p = passes(2);
    assert_eq!(
        p,
        vec![
            Pass { source: PassSource::Scene, destination: PassDestination::Intermediate(0) },
            Pass { source: PassSource::Effect { samples: 0 }, destination: PassDestination::Intermediate(1) },
            Pass { source: PassSource::Effect { samples: 1 }, destination: PassDestination::Final },
        ]
    );
}

#[test]
fn each_intermediate_target_is_read_by_the_next_pass() {
    let n = 5;
    let p = passes(n);
    assert_eq!(p.len(), n + 1);
    for i in 0..n {
        assert_eq!(p[i].destination, PassDestination::Intermediate(i));
        assert_eq!(p[i + 1].source, PassSource::Effect { samples: i });
    }
    assert_eq!(p[n].destination, PassDestination::Final);
}
