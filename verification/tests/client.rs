use std::cell::RefCell;
use std::collections::VecDeque;
use std::rc::Rc;

use tao::{
    adopt_buffer, adopt_unsealed, call_succeeded, FDMessageChannel, MessageChannel, Reply, Request, Tao, TaoRPC,
    TAO_SEAL_POLICY_ATTESTATION_SIGNING_CONTEXT, TAO_SEAL_POLICY_CONSERVATIVE,
    TAO_SEAL_POLICY_DEFAULT, TAO_SEAL_POLICY_LIBERAL,
};

/// A channel that answers from a script and notes what it was asked.
struct Scripted {
    replies: VecDeque<Reply>,
    seen: Rc<RefCell<Vec<Request>>>,
}

impl Scripted {
    fn with(replies: Vec<Reply>) -> (Scripted, Rc<RefCell<Vec<Request>>>) {
        let seen = Rc::new(RefCell::new(Vec::new()));
        (Scripted { replies: replies.into(), seen: seen.clone() }, seen)
    }
}

impl MessageChannel for Scripted {
    fn exchange(&mut self, request: &Request) -> Reply {
        self.seen.borrow_mut().push(request.clone());
        self.replies.pop_front().unwrap_or(failure())
    }
}

/// An authority that seals by prefixing the policy label and flipping the
/// data bytes, and that opens what it sealed.
struct Vault {
    seen: Rc<RefCell<Vec<Request>>>,
}

impl MessageChannel for Vault {
    fn exchange(&mut self, request: &Request) -> Reply {
        self.seen.borrow_mut().push(request.clone());
        match request {
            Request::GetTaoName => success(b"vault".to_vec()),
            Request::GetRandomBytes { size } => success((0..*size).map(|i| i as u8).collect()),
            Request::Attest { message } => {
                let mut signed = b"signed:".to_vec();
                signed.extend_from_slice(message);
                success(signed)
            }
            Request::Seal { data, policy } => {
                if policy.len() > 255 {
                    return failure();
                }
                let mut blob = vec![policy.len() as u8];
                blob.extend_from_slice(policy.as_bytes());
                blob.extend(data.iter().map(|b| !b));
                success(blob)
            }
            Request::Unseal { sealed } => {
                let Some((&len, rest)) = sealed.split_first() else {
                    return failure();
                };
                if rest.len() < len as usize {
                    return failure();
                }
                let (policy, data) = rest.split_at(len as usize);
                Reply {
                    status: 1,
                    data: data.iter().map(|b| !b).collect(),
                    policy: policy.to_vec(),
                }
            }
            Request::Release => success(Vec::new()),
        }
    }
}

fn vault() -> (Vault, Rc<RefCell<Vec<Request>>>) {
    let seen = Rc::new(RefCell::new(Vec::new()));
    (Vault { seen: seen.clone() }, seen)
}

fn success(data: Vec<u8>) -> Reply {
    Reply { status: 1, data, policy: Vec::new() }
}

fn failure() -> Reply {
    Reply { status: 0, data: Vec::new(), policy: Vec::new() }
}

#[test]
fn only_zero_is_failure() {
    assert!(!call_succeeded(0));
    assert!(call_succeeded(1));
    assert!(call_succeeded(-1));
    assert!(call_succeeded(i32::MIN));
}

#[test]
fn adopt_buffer_failure_is_none() {
    assert_eq!(adopt_buffer(0, Vec::new()), None);
    assert_eq!(adopt_buffer(0, vec![1, 2, 3]), None);
}

#[test]
fn adopt_buffer_success_keeps_the_bytes() {
    assert_eq!(adopt_buffer(1, vec![1, 2, 3]), Some(vec![1, 2, 3]));
    assert_eq!(adopt_buffer(-1, vec![9]), Some(vec![9]));
}

#[test]
fn adopt_buffer_empty_success_is_present() {
    assert_eq!(adopt_buffer(1, Vec::new()), Some(Vec::new()));
}

#[test]
fn adopt_unsealed_decodes_the_policy() {
    assert_eq!(
        adopt_unsealed(1, vec![7, 8], b"self".to_vec()),
        Some((vec![7, 8], "self".to_string()))
    );
    assert_eq!(
        adopt_unsealed(1, vec![], "gr\u{fc}n \u{2603}".as_bytes().to_vec()),
        Some((vec![], "gr\u{fc}n \u{2603}".to_string()))
    );
}

#[test]
fn adopt_unsealed_failure_is_none() {
    assert_eq!(adopt_unsealed(0, vec![7, 8], b"self".to_vec()), None);
}

#[test]
fn adopt_unsealed_rejects_a_malformed_policy() {
    assert_eq!(adopt_unsealed(1, vec![7, 8], vec![0xff, 0xfe]), None);
    assert_eq!(adopt_unsealed(1, vec![7, 8], vec![0xc3]), None);
}

#[test]
fn failing_call_is_absent_not_empty() {
    let (channel, seen) = Scripted::with(vec![failure(), failure(), failure(), failure(), failure()]);
    let mut tao = TaoRPC::new(channel);
    assert_eq!(tao.get_tao_name(), None);
    assert_eq!(tao.get_random_bytes(4), None);
    assert_eq!(tao.attest(b"m"), None);
    assert_eq!(tao.seal(b"d", "self"), None);
    assert_eq!(tao.unseal(b"s"), None);
    assert_eq!(seen.borrow().len(), 5);
}

#[test]
fn failing_call_ignores_what_the_buffer_holds() {
    let (channel, _) = Scripted::with(vec![Reply {
        status: 0,
        data: vec![1, 2, 3],
        policy: b"self".to_vec(),
    }]);
    let mut tao = TaoRPC::new(channel);
    assert_eq!(tao.unseal(b"s"), None);
}

#[test]
fn empty_success_is_present() {
    let (channel, _) = Scripted::with(vec![success(Vec::new())]);
    let mut tao = TaoRPC::new(channel);
    assert_eq!(tao.get_tao_name(), Some(Vec::new()));
}

#[test]
fn get_tao_name_relays_the_name() {
    let (channel, seen) = vault();
    let mut tao = TaoRPC::new(channel);
    assert_eq!(tao.get_tao_name(), Some(b"vault".to_vec()));
    assert_eq!(*seen.borrow(), vec![Request::GetTaoName]);
}

#[test]
fn get_random_bytes_asks_for_the_size() {
    let (channel, seen) = vault();
    let mut tao = TaoRPC::new(channel);
    let bytes = tao.get_random_bytes(10).unwrap();
    assert_eq!(bytes.len(), 10);
    assert_eq!(bytes, vec![0, 1, 2, 3, 4, 5, 6, 7, 8, 9]);
    assert_eq!(tao.get_random_bytes(0), Some(Vec::new()));
    assert_eq!(
        *seen.borrow(),
        vec![Request::GetRandomBytes { size: 10 }, Request::GetRandomBytes { size: 0 }]
    );
}

#[test]
fn get_random_bytes_does_not_mend_a_short_answer() {
    let (channel, _) = Scripted::with(vec![success(vec![1, 2, 3])]);
    let mut tao = TaoRPC::new(channel);
    assert_eq!(tao.get_random_bytes(10), Some(vec![1, 2, 3]));
}

#[test]
fn attest_relays_the_message() {
    let (channel, seen) = vault();
    let mut tao = TaoRPC::new(channel);
    assert_eq!(tao.attest(b"statement"), Some(b"signed:statement".to_vec()));
    assert_eq!(*seen.borrow(), vec![Request::Attest { message: b"statement".to_vec() }]);
}

#[test]
fn seal_then_unseal_gives_back_data_and_policy() {
    let (channel, seen) = vault();
    let mut tao = TaoRPC::new(channel);
    let data = vec![0u8, 1, 2, 254, 255];
    let sealed = tao.seal(&data, TAO_SEAL_POLICY_DEFAULT).unwrap();
    assert_ne!(sealed, data);
    assert_eq!(tao.unseal(&sealed), Some((data.clone(), "self".to_string())));
    assert_eq!(
        *seen.borrow(),
        vec![
            Request::Seal { data: data.clone(), policy: "self".to_string() },
            Request::Unseal { sealed: sealed.clone() },
        ]
    );
}

#[test]
fn seal_then_unseal_of_empty_data() {
    let (channel, _) = vault();
    let mut tao = TaoRPC::new(channel);
    let sealed = tao.seal(&[], TAO_SEAL_POLICY_LIBERAL).unwrap();
    assert_eq!(tao.unseal(&sealed), Some((Vec::new(), "any".to_string())));
}

#[test]
fn seal_passes_an_arbitrary_policy_through() {
    let (channel, seen) = vault();
    let mut tao = TaoRPC::new(channel);
    let policy = "only on tuesdays \u{2603}";
    let sealed = tao.seal(b"secret", policy).unwrap();
    assert_eq!(
        seen.borrow()[0],
        Request::Seal { data: b"secret".to_vec(), policy: policy.to_string() }
    );
    assert_eq!(tao.unseal(&sealed), Some((b"secret".to_vec(), policy.to_string())));
}

#[test]
fn unseal_of_a_malformed_policy_is_absent() {
    let (channel, _) = Scripted::with(vec![Reply {
        status: 1,
        data: vec![1],
        policy: vec![0x80],
    }]);
    let mut tao = TaoRPC::new(channel);
    assert_eq!(tao.unseal(b"blob"), None);
}

#[test]
fn unseal_rejected_by_the_authority_is_absent() {
    let (channel, _) = vault();
    let mut tao = TaoRPC::new(channel);
    assert_eq!(tao.unseal(&[]), None);
    assert_eq!(tao.unseal(&[200, 1]), None);
}

#[test]
fn fresh_session_is_released_exactly_once() {
    let (channel, seen) = vault();
    let mut tao = TaoRPC::new(channel);
    assert!(!tao.is_released());
    assert!(seen.borrow().is_empty());
    tao.release();
    assert!(tao.is_released());
    assert_eq!(*seen.borrow(), vec![Request::Release]);
}

#[test]
fn second_release_sends_nothing() {
    let (channel, seen) = vault();
    let mut tao = TaoRPC::new(channel);
    tao.release();
    tao.release();
    tao.release();
    assert_eq!(*seen.borrow(), vec![Request::Release]);
}

#[test]
fn release_after_calls_is_sent_once() {
    let (channel, seen) = vault();
    let mut tao = TaoRPC::new(channel);
    tao.get_tao_name();
    tao.get_random_bytes(2);
    tao.release();
    let releases = seen.borrow().iter().filter(|r| **r == Request::Release).count();
    assert_eq!(releases, 1);
    assert_eq!(seen.borrow().last(), Some(&Request::Release));
}

#[test]
fn released_session_sends_nothing_and_fails() {
    let (channel, seen) = vault();
    let mut tao = TaoRPC::new(channel);
    tao.release();
    assert_eq!(tao.get_tao_name(), None);
    assert_eq!(tao.get_random_bytes(3), None);
    assert_eq!(tao.attest(b"m"), None);
    assert_eq!(tao.seal(b"d", "self"), None);
    assert_eq!(tao.unseal(b"s"), None);
    assert_eq!(*seen.borrow(), vec![Request::Release]);
}

#[test]
fn release_is_sent_even_when_the_channel_fails() {
    let (channel, seen) = Scripted::with(vec![]);
    let mut tao = TaoRPC::new(channel);
    tao.release();
    assert!(tao.is_released());
    assert_eq!(*seen.borrow(), vec![Request::Release]);
}

#[test]
fn well_known_policies() {
    assert_eq!(TAO_SEAL_POLICY_DEFAULT, "self");
    assert_eq!(TAO_SEAL_POLICY_CONSERVATIVE, "few");
    assert_eq!(TAO_SEAL_POLICY_LIBERAL, "any");
    assert_eq!(TAO_SEAL_POLICY_ATTESTATION_SIGNING_CONTEXT, "tao::Attestation Version 1");
}

#[test]
fn fd_channel_keeps_its_descriptors() {
    let channel = FDMessageChannel::new(3, 4);
    assert_eq!(channel.readfd(), 3);
    assert_eq!(channel.writefd(), 4);
}
