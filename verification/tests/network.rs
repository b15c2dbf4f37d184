use bytes::BytesMut;
use simple_redis::backend::Backend;
use simple_redis::cmd::CommandError;
use simple_redis::network::{act, decode_next, respond, Action, HandlerError};
use simple_redis::{RespError, RespFrame};
use std::sync::{Arc, Mutex};

fn exchange(backend: &mut Backend, request: &[u8]) -> Vec<u8> {
    let mut buf = BytesMut::new();
    buf.extend_from_slice(request);
    match act(&mut buf, backend, false) {
        Action::Write(bytes) => {
            assert!(buf.is_empty());
            bytes
        }
        other => panic!("no reply: {:?}", other),
    }
}

#[test]
fn scenario_set_replies_ok() {
    let mut backend = Backend::new();
    let reply = exchange(
        &mut backend,
        b"*3\r\n$3\r\nset\r\n$5\r\nhello\r\n$5\r\nworld\r\n",
    );
    assert_eq!(reply, b"+OK\r\n");
}

#[test]
fn scenario_get_replies_with_the_value() {
    let mut backend = Backend::new();
    exchange(
        &mut backend,
        b"*3\r\n$3\r\nset\r\n$5\r\nhello\r\n$5\r\nworld\r\n",
    );
    let reply = exchange(&mut backend, b"*2\r\n$3\r\nget\r\n$5\r\nhello\r\n");
    assert_eq!(reply, b"$5\r\nworld\r\n");
}

#[test]
fn scenario_get_of_a_missing_key_replies_null() {
    let mut backend = Backend::new();
    let reply = exchange(&mut backend, b"*2\r\n$3\r\nget\r\n$4\r\nmiss\r\n");
    assert_eq!(reply, b"_\r\n");
}

#[test]
fn scenario_hset_then_hget() {
    let mut backend = Backend::new();
    let reply = exchange(
        &mut backend,
        b"*4\r\n$4\r\nhset\r\n$1\r\nh\r\n$1\r\nf\r\n$1\r\nv\r\n",
    );
    assert_eq!(reply, b"+OK\r\n");
    let reply = exchange(&mut backend, b"*3\r\n$4\r\nhget\r\n$1\r\nh\r\n$1\r\nf\r\n");
    assert_eq!(reply, b"$1\r\nv\r\n");
}

#[test]
fn scenario_echo() {
    let mut backend = Backend::new();
    let reply = exchange(&mut backend, b"*2\r\n$4\r\necho\r\n$5\r\nhello\r\n");
    assert_eq!(reply, b"$5\r\nhello\r\n");
}

#[test]
fn scenario_sadd_twice() {
    let mut backend = Backend::new();
    let request = b"*3\r\n$4\r\nsadd\r\n$1\r\ns\r\n$1\r\nx\r\n";
    assert_eq!(exchange(&mut backend, request), b":+1\r\n");
    assert_eq!(exchange(&mut backend, request), b":+0\r\n");
    let reply = exchange(
        &mut backend,
        b"*3\r\n$9\r\nsismember\r\n$1\r\ns\r\n$1\r\nx\r\n",
    );
    assert_eq!(reply, b":+1\r\n");
}

#[test]
fn hgetall_of_a_missing_key_replies_with_the_empty_array() {
    let mut backend = Backend::new();
    let reply = exchange(&mut backend, b"*2\r\n$7\r\nhgetall\r\n$1\r\nh\r\n");
    assert_eq!(reply, b"*0\r\n");
}

#[test]
fn hmget_over_the_wire() {
    let mut backend = Backend::new();
    exchange(
        &mut backend,
        b"*4\r\n$4\r\nhset\r\n$1\r\nh\r\n$1\r\nf\r\n$1\r\nv\r\n",
    );
    let reply = exchange(
        &mut backend,
        b"*4\r\n$5\r\nhmget\r\n$1\r\nh\r\n$1\r\nf\r\n$1\r\ng\r\n",
    );
    assert_eq!(reply, b"*2\r\n$1\r\nv\r\n_\r\n");
}

#[test]
fn a_request_in_pieces_waits_for_the_last_byte() {
    let request = b"*3\r\n$3\r\nset\r\n$5\r\nhello\r\n$5\r\nworld\r\n";
    for cut in 0..request.len() {
        let mut backend = Backend::new();
        let mut buf = BytesMut::new();
        buf.extend_from_slice(&request[..cut]);
        assert_eq!(act(&mut buf, &mut backend, false), Action::Read);
        assert_eq!(&buf[..], &request[..cut]);
        buf.extend_from_slice(&request[cut..]);
        assert_eq!(
            act(&mut buf, &mut backend, false),
            Action::Write(b"+OK\r\n".to_vec())
        );
        assert!(buf.is_empty());
        assert_eq!(act(&mut buf, &mut backend, false), Action::Read);
    }
}

#[test]
fn two_requests_in_one_read_are_answered_in_order() {
    let mut backend = Backend::new();
    let mut buf = BytesMut::new();
    buf.extend_from_slice(b"*3\r\n$3\r\nset\r\n$1\r\nk\r\n$1\r\nv\r\n*2\r\n$3\r\nget\r\n$1\r\nk\r\n");
    assert_eq!(
        act(&mut buf, &mut backend, false),
        Action::Write(b"+OK\r\n".to_vec())
    );
    assert_eq!(
        act(&mut buf, &mut backend, false),
        Action::Write(b"$1\r\nv\r\n".to_vec())
    );
    assert_eq!(act(&mut buf, &mut backend, false), Action::Read);
}

#[test]
fn end_of_stream() {
    let mut backend = Backend::new();
    let mut buf = BytesMut::new();
    assert_eq!(act(&mut buf, &mut backend, true), Action::Finish);
    buf.extend_from_slice(b"*2\r\n$3\r\nget");
    assert_eq!(
        act(&mut buf, &mut backend, true),
        Action::Fail(HandlerError::ClosedMidFrame)
    );
}

#[test]
fn bytes_that_are_no_frame_end_the_connection() {
    let mut backend = Backend::new();
    let mut buf = BytesMut::new();
    buf.extend_from_slice(b"!oops\r\n");
    let expected = format!(
        "decode unknown frame type: {:?}",
        BytesMut::from(&b"!oops\r\n"[..])
    );
    assert_eq!(
        act(&mut buf, &mut backend, false),
        Action::Fail(HandlerError::Codec(RespError::InvalidFrameType(expected)))
    );
}

#[test]
fn a_frame_that_is_no_command_ends_the_connection() {
    let mut backend = Backend::new();
    let mut buf = BytesMut::new();
    buf.extend_from_slice(b":+1\r\n");
    assert_eq!(
        act(&mut buf, &mut backend, false),
        Action::Fail(HandlerError::Command(CommandError::InvalidCommand(
            "Command must be an Array".to_string()
        )))
    );
    assert_eq!(
        respond(RespFrame::Boolean(true), &mut backend),
        Err(CommandError::InvalidCommand(
            "Command must be an Array".to_string()
        ))
    );
}

#[test]
fn decode_next_tells_not_complete_from_malformed() {
    let mut buf = BytesMut::new();
    buf.extend_from_slice(b":+12");
    assert_eq!(decode_next(&mut buf), Ok(None));
    buf.extend_from_slice(b"3\r\n:x\r\n");
    assert_eq!(decode_next(&mut buf), Ok(Some(RespFrame::Integer(123))));
    assert_eq!(decode_next(&mut buf), Err(RespError::ParseIntError));
}

fn on_many_tasks(backend: &Arc<Mutex<Backend>>, tasks: i64, requests: fn(i64) -> Vec<Vec<u8>>) {
    let runtime = tokio::runtime::Builder::new_multi_thread()
        .worker_threads(4)
        .build()
        .unwrap();
    runtime.block_on(async {
        let mut handles = Vec::new();
        for task in 0..tasks {
            let backend = Arc::clone(backend);
            handles.push(tokio::spawn(async move {
                for request in requests(task) {
                    let mut guard = backend.lock().unwrap();
                    assert_eq!(exchange(&mut guard, &request), b"+OK\r\n");
                }
            }));
        }
        for handle in handles {
            handle.await.unwrap();
        }
    });
}

fn bulk(text: &str) -> String {
    format!("${}\r\n{}\r\n", text.len(), text)
}

fn sets_of_task(task: i64) -> Vec<Vec<u8>> {
    (0..25)
        .map(|i| {
            let key = format!("key-{}-{}", task, i);
            format!("*3\r\n$3\r\nset\r\n{}{}", bulk(&key), bulk(&key)).into_bytes()
        })
        .collect()
}

fn hsets_of_task(task: i64) -> Vec<Vec<u8>> {
    (0..25)
        .map(|i| {
            let field = format!("field-{}-{}", task, i);
            format!("*4\r\n$4\r\nhset\r\n$1\r\nh\r\n{}{}", bulk(&field), bulk(&field))
                .into_bytes()
        })
        .collect()
}

#[test]
fn parallel_sets_of_distinct_keys_lose_none() {
    let backend = Arc::new(Mutex::new(Backend::new()));
    on_many_tasks(&backend, 16, sets_of_task);
    let backend = backend.lock().unwrap();
    for task in 0..16 {
        for i in 0..25 {
            let key = format!("key-{}-{}", task, i);
            assert_eq!(backend.get(&key), Some(RespFrame::from(key.as_bytes())));
        }
    }
}

#[test]
fn parallel_hsets_of_distinct_fields_keep_all() {
    let backend = Arc::new(Mutex::new(Backend::new()));
    on_many_tasks(&backend, 16, hsets_of_task);
    let backend = backend.lock().unwrap();
    assert_eq!(backend.hgetall("h").unwrap().len(), 16 * 25);
    for task in 0..16 {
        for i in 0..25 {
            let field = format!("field-{}-{}", task, i);
            assert_eq!(
                backend.hget("h", &field),
                Some(RespFrame::from(field.as_bytes()))
            );
        }
    }
}
