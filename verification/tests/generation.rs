use grout::generate::{
    check_request, has_chat_template, maybe_apply_chat_template, GenAction, GenEvent,
    GenerateError, Generation, SessionAction, SessionGeneration,
};
use grout::sampling::argmax_of_blocks;
use grout::session::{DeviceCall, Engine, EngineError, LoadOpts, ModelMeta};
use std::str::FromStr;
use tokenizers::Tokenizer;

#[test]
fn requests_have_to_fit_the_context() {
    assert_eq!(check_request(0, 1, 8), Err(GenerateError::EmptyPrompt));
    assert_eq!(check_request(3, 5, 8), Ok(()));
    assert_eq!(check_request(3, 6, 8), Err(GenerateError::TooLong { max: 8 }));
    assert_eq!(
        check_request(3, usize::MAX, 8),
        Err(GenerateError::TooLong { max: 8 })
    );
}

#[test]
fn prompts_become_turns_of_the_user() {
    assert_eq!(maybe_apply_chat_template("hi", false), "hi");
    assert_eq!(
        maybe_apply_chat_template("hi", true),
        "<|im_start|>user\nhi<|im_end|>\n<|im_start|>assistant\n<think>\n\n</think>\n\n"
    );
    let own = "a<|im_start|>b";
    assert_eq!(maybe_apply_chat_template(own, true), own);
    assert_ne!(maybe_apply_chat_template("<|im_start", true), "<|im_start");
}

fn tokenizer(words: &[&str]) -> Tokenizer {
    let vocab: Vec<String> = words
        .iter()
        .enumerate()
        .map(|(i, w)| format!("\"{w}\":{i}"))
        .collect();
    let json = format!(
        "{{\"version\":\"1.0\",\"truncation\":null,\"padding\":null,\"added_tokens\":[],\
         \"normalizer\":null,\"pre_tokenizer\":null,\"post_processor\":null,\"decoder\":null,\
         \"model\":{{\"type\":\"WordLevel\",\"vocab\":{{{}}},\"unk_token\":\"a\"}}}}",
        vocab.join(",")
    );
    Tokenizer::from_str(&json).unwrap()
}

#[test]
fn turns_need_both_of_their_tokens() {
    assert!(has_chat_template(&tokenizer(&[
        "a",
        "<|im_start|>",
        "<|im_end|>"
    ])));
    assert!(!has_chat_template(&tokenizer(&["a", "<|im_start|>"])));
    assert!(!has_chat_template(&tokenizer(&["a", "<|im_end|>"])));
}

fn generation(max_new: usize, sampling: bool, device: bool, graph: bool) -> Generation {
    Generation::start(max_new, 10, vec![0, 9], sampling, device, graph, false)
}

#[test]
fn recorded_steps_choose_their_own_tokens() {
    let mut g = generation(3, false, true, true);
    assert_eq!(g.action(), GenAction::ArgmaxDevice);
    g.step(GenEvent::Token(5));
    assert_eq!(g.action(), GenAction::Seed { token: 5 });
    g.step(GenEvent::Ready);
    assert_eq!(g.action(), GenAction::Replay { position: 10 });
    g.step(GenEvent::Token(6));
    assert_eq!(g.action(), GenAction::Replay { position: 11 });
    g.step(GenEvent::Token(7));
    assert_eq!(g.action(), GenAction::Finish);
    assert_eq!(g.generated, vec![5, 6, 7]);
}

#[test]
fn a_token_that_ends_the_text_is_left_out() {
    let mut g = generation(3, false, true, true);
    g.step(GenEvent::Token(5));
    g.step(GenEvent::Ready);
    g.step(GenEvent::Token(9));
    assert_eq!(g.action(), GenAction::Finish);
    assert_eq!(g.generated, vec![5]);
    let mut g = generation(3, false, true, true);
    g.step(GenEvent::Token(0));
    assert_eq!(g.action(), GenAction::Finish);
    assert!(g.generated.is_empty());
}

#[test]
fn failed_recordings_go_on_step_by_step() {
    let mut g = generation(4, false, false, true);
    g.step(GenEvent::Token(5));
    g.step(GenEvent::Ready);
    g.step(GenEvent::Token(6));
    g.step(GenEvent::Failed);
    // The last token is computed again at the position at which its replay failed.
    assert_eq!(
        g.action(),
        GenAction::Step {
            token: 6,
            position: 11
        }
    );
    g.step(GenEvent::Ready);
    assert_eq!(g.action(), GenAction::ArgmaxHost);
    g.step(GenEvent::Token(7));
    assert_eq!(
        g.action(),
        GenAction::Step {
            token: 7,
            position: 12
        }
    );
    g.step(GenEvent::Ready);
    g.step(GenEvent::Token(8));
    assert_eq!(
        g.action(),
        GenAction::Step {
            token: 8,
            position: 13
        }
    );
    g.step(GenEvent::Ready);
    assert_eq!(g.action(), GenAction::Finish);
    assert_eq!(g.generated, vec![5, 6, 7, 8]);
}

#[test]
fn sampling_reads_the_logits_of_every_step() {
    let mut g = generation(2, true, true, true);
    assert_eq!(g.action(), GenAction::Sample);
    g.step(GenEvent::Token(5));
    assert_eq!(
        g.action(),
        GenAction::ReplayLogits {
            token: 5,
            position: 10
        }
    );
    g.step(GenEvent::Failed);
    assert_eq!(
        g.action(),
        GenAction::Step {
            token: 5,
            position: 10
        }
    );
    g.step(GenEvent::Ready);
    assert_eq!(g.action(), GenAction::Sample);
    g.step(GenEvent::Token(6));
    g.step(GenEvent::Ready);
    assert_eq!(g.action(), GenAction::Finish);
}

#[test]
fn no_new_tokens_finish_at_once() {
    let g = generation(0, true, true, false);
    assert_eq!(g.action(), GenAction::Finish);
    let mut g = generation(0, false, true, true);
    assert_eq!(g.action(), GenAction::ArgmaxDevice);
    g.step(GenEvent::Token(5));
    assert_eq!(g.action(), GenAction::Finish);
    assert!(g.generated.is_empty());
}

#[test]
fn sessions_decode_once_per_token_but_the_last() {
    let mut g = SessionGeneration::start(2, vec![9], false, false);
    assert_eq!(g.action(), SessionAction::Argmax);
    g.step(GenEvent::Token(4));
    assert_eq!(g.action(), SessionAction::Decode { token: 4 });
    g.step(GenEvent::Ready);
    assert_eq!(g.action(), SessionAction::Argmax);
    g.step(GenEvent::Token(5));
    assert_eq!(g.action(), SessionAction::Finish);
    assert_eq!(g.generated, vec![4, 5]);
    let mut g = SessionGeneration::start(3, vec![9], false, true);
    g.step(GenEvent::Token(4));
    assert_eq!(g.action(), SessionAction::DecodeGreedy { token: 4 });
    g.step(GenEvent::Token(9));
    assert_eq!(g.action(), SessionAction::Finish);
    assert_eq!(g.generated, vec![4]);
}

fn engine(max_ctx: usize) -> Engine {
    Engine::new(ModelMeta {
        vocab_size: 16,
        eos_token_ids: vec![3, 4],
        arch: "qwen3".to_string(),
        max_ctx,
    })
}

#[test]
fn tokens_follow_the_prompt_in_a_session() {
    let mut e = engine(4);
    let c = e.prefill(&[1, 2]).unwrap();
    assert_eq!(c, DeviceCall::Prefill { len: 2 });
    e.finish(c, None).unwrap();
    let c = e.decode(7).unwrap();
    assert_eq!(
        c,
        DeviceCall::Decode {
            token: 7,
            position: 2
        }
    );
    e.finish(c, None).unwrap();
    let c = e.decode_greedy(8).unwrap();
    assert_eq!(
        c,
        DeviceCall::DecodeGreedy {
            token: 8,
            position: 3
        }
    );
    // A failed decode leaves the position as it was.
    assert_eq!(
        e.finish(c, Some("lost".to_string()))
            .unwrap_err()
            .message(),
        "lost"
    );
    let c = e.decode(8).unwrap();
    e.finish(c, None).unwrap();
    let err = e.decode(9).unwrap_err();
    assert!(matches!(
        err,
        EngineError::ContextFull {
            position: 4,
            max_ctx: 4
        }
    ));
    assert_eq!(err.message(), "decode position 4 exceeds max_ctx=4");
}

#[test]
fn greedy_decoding_goes_as_plain_decoding() {
    let (mut a, mut b) = (engine(6), engine(6));
    for e in [&mut a, &mut b] {
        let c = e.prefill(&[1, 2]).unwrap();
        e.finish(c, None).unwrap();
    }
    for position in 2..6 {
        let c = a.decode(7).unwrap();
        let d = b.decode_greedy(7).unwrap();
        assert_eq!(c, DeviceCall::Decode { token: 7, position });
        assert_eq!(d, DeviceCall::DecodeGreedy { token: 7, position });
        a.finish(c, None).unwrap();
        b.finish(d, None).unwrap();
        assert_eq!(a.position(), b.position());
    }
    assert_eq!(
        a.decode(7).unwrap_err().message(),
        b.decode_greedy(7).unwrap_err().message()
    );
    // Logits in blocks of four: the device reports the greatest of each.
    let logits = [1.0f32, -2.0, 0.5, 3.0, 2.0, 8.0, -1.0, 8.0, 7.5];
    let maxes = [3.0f32, 8.0, 7.5].map(f32::to_bits);
    let place = argmax_of_blocks(&maxes, &[3, 5, 8], logits.len());
    assert_eq!(place, 5);
    assert!(logits.iter().all(|x| *x <= logits[place]));
}

#[test]
fn ignored_ends_of_text_give_all_tokens() {
    for (graph, sampling) in [(true, false), (false, false), (true, true)] {
        let mut g = Generation::start(4, 10, vec![], sampling, true, graph, false);
        while g.action() != GenAction::Finish {
            let event = match g.action() {
                GenAction::Seed { .. } => GenEvent::Ready,
                GenAction::Step { .. } | GenAction::ReplayLogits { .. } => GenEvent::Ready,
                _ => GenEvent::Token(9),
            };
            g.step(event);
        }
        let out = g.output("nine".to_string(), 1, 2, 3, None);
        assert_eq!((out.prompt_tokens, out.generated_tokens), (10, 4));
        assert_eq!((out.prompt_elapsed, out.decode_elapsed, out.total_elapsed), (1, 2, 3));
        assert_eq!(out.text, "nine");
    }
    let mut g = SessionGeneration::start(3, vec![], false, true);
    while g.action() != SessionAction::Finish {
        g.step(GenEvent::Token(9));
    }
    let out = g.output(String::new(), 7, 1, 2, 3, None);
    assert_eq!((out.prompt_tokens, out.generated_tokens), (7, 3));
}

#[test]
fn a_text_ends_early_only_where_it_says_so() {
    let mut g = generation(5, false, true, true);
    g.step(GenEvent::Token(5));
    g.step(GenEvent::Ready);
    g.step(GenEvent::Token(9));
    let out = g.output(String::new(), 1, 2, 3, None);
    assert_eq!(out.generated_tokens, 1);
    assert_eq!(g.action(), GenAction::Finish);
}

#[test]
fn prefills_have_to_fit() {
    let mut e = engine(2);
    assert_eq!(
        e.prefill(&[]).unwrap_err().message(),
        "prefill requires at least one token"
    );
    assert_eq!(
        e.prefill(&[1, 2, 3]).unwrap_err().message(),
        "prefill length 3 exceeds max_ctx=2"
    );
    assert_eq!(
        e.decode(1).unwrap_err().message(),
        "decode requires a preceding prefill"
    );
}

#[test]
fn a_failed_reset_is_told_again_once() {
    let mut e = engine(8);
    let c = e.prefill(&[1]).unwrap();
    e.finish(c, None).unwrap();
    let c = e.reset();
    assert_eq!(
        e.finish(c, Some("gone".to_string())).unwrap_err().message(),
        "reset failed: gone"
    );
    assert_eq!(
        e.prefill(&[1]).unwrap_err().message(),
        "previous reset failed: gone"
    );
    assert!(e.prefill(&[1]).is_ok());
}

#[test]
fn warm_up_leaves_no_session() {
    let mut e = engine(8);
    let c = e.warmup().unwrap();
    assert_eq!(c, DeviceCall::Warmup { token: 3 });
    e.finish(c, None).unwrap();
    assert!(matches!(e.decode(1), Err(EngineError::NoSession)));
    assert_eq!(e.position(), 0);
    assert_eq!(e.meta().vocab_size, 16);
}

#[test]
fn load_options_default_to_the_model() {
    assert_eq!(
        LoadOpts::default(),
        LoadOpts {
            max_ctx: 0,
            device_ord: 0
        }
    );
    assert_eq!(LoadOpts::default().requested_ctx(), None);
    let opts = LoadOpts {
        max_ctx: 5,
        device_ord: 1,
    };
    assert_eq!(opts.requested_ctx(), Some(5));
}

#[test]
fn nothing_is_decoded_after_a_reset() {
    for failure in [None, Some("gone".to_string())] {
        let mut e = engine(8);
        let c = e.prefill(&[1]).unwrap();
        e.finish(c, None).unwrap();
        let c = e.reset();
        let failed = failure.is_some();
        assert_eq!(e.finish(c, failure).is_err(), failed);
        if failed {
            assert!(matches!(
                e.decode_greedy(1),
                Err(EngineError::PreviousReset { .. })
            ));
        }
        assert!(matches!(e.decode_greedy(1), Err(EngineError::NoSession)));
        assert!(matches!(e.decode(1), Err(EngineError::NoSession)));
        // A prefill that fails starts no session either.
        let c = e.prefill(&[1]).unwrap();
        assert!(e.finish(c, Some("lost".to_string())).is_err());
        assert!(matches!(e.decode(1), Err(EngineError::NoSession)));
    }
}
