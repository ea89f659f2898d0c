use redis_starter_rust::command_executer::CommandExecuter;
use redis_starter_rust::command_executor::{
    get_from_store, get_reply, plan_command, set_in_store, set_reply, CommandExecutor, Plan,
};
use redis_starter_rust::resp_decoder::RESPDecoder;
use redis_starter_rust::store::Store;
use std::sync::RwLock;

fn execute_command(command: Vec<u8>, store: &RwLock<Store>) -> Vec<u8> {
    let mut decorder = RESPDecoder::new(command);
    let resp = decorder.next_resp().unwrap();
    let args = resp.array();
    CommandExecutor::new(args, store).execute()
}

#[test]
fn command_executer_it_should_execute_ping() {
    let command = "*1\r\n$4\r\nping\r\n";
    let mut decorder = RESPDecoder::new(command.as_bytes().to_vec());
    let resp = decorder.next_resp().unwrap();
    let args = resp.array();

    let response = CommandExecuter::new(args).execute();
    assert_eq!(String::from_utf8_lossy(&response[..]), "+PONG\r\n");
}

#[test]
fn command_executer_it_should_execute_echo() {
    let command = "*2\r\n$4\r\necho\r\n$5\r\nhello\r\n";
    let mut decorder = RESPDecoder::new(command.as_bytes().to_vec());
    let resp = decorder.next_resp().unwrap();
    let args = resp.array();

    let response = CommandExecuter::new(args).execute();
    assert_eq!(String::from_utf8_lossy(&response[..]), "$5\r\nhello\r\n");
}

#[test]
fn command_executer_answers_zero_to_other_commands() {
    let mut decorder = RESPDecoder::new(b"*1\r\n$3\r\nget\r\n".to_vec());
    let resp = decorder.next_resp().unwrap();
    let response = CommandExecuter::new(resp.array()).execute();
    assert_eq!(response, b":0\r\n".to_vec());
}

#[test]
fn command_executor_it_should_execute_ping() {
    let store = RwLock::new(Store::new());
    let command = b"*1\r\n$4\r\nping\r\n";
    let response = execute_command(command.to_vec(), &store);
    assert_eq!(String::from_utf8_lossy(&response[..]), "+PONG\r\n");
}

#[test]
fn command_executor_it_should_execute_echo() {
    let store = RwLock::new(Store::new());
    let command = b"*2\r\n$4\r\necho\r\n$5\r\nhello\r\n";
    let response = execute_command(command.to_vec(), &store);
    assert_eq!(String::from_utf8_lossy(&response[..]), "$5\r\nhello\r\n");
}

#[test]
fn it_should_execute_set() {
    let store = RwLock::new(Store::new());
    let command = b"*3\r\n$3\r\nset\r\n$3\r\nkey\r\n$5\r\nvalue\r\n";
    let response = execute_command(command.to_vec(), &store);
    assert_eq!(String::from_utf8_lossy(&response[..]), "+OK\r\n");
}

#[test]
fn it_should_execute_get() {
    let store = RwLock::new(Store::new());
    let set_command = b"*3\r\n$3\r\nset\r\n$3\r\nkey\r\n$5\r\nvalue\r\n";
    execute_command(set_command.to_vec(), &store);

    let get_command = b"*2\r\n$3\r\nget\r\n$3\r\nkey\r\n";
    let response = execute_command(get_command.to_vec(), &store);
    assert_eq!(String::from_utf8_lossy(&response[..]), "$5\r\nvalue\r\n");
}

#[test]
fn it_should_return_an_argument_error() {
    let tests = [
        ("echo", "*1\r\n$4\r\necho\r\n"),
        ("set", "*2\r\n$3\r\nset\r\n$3\r\nkey\r\n"),
        ("get", "*1\r\n$3\r\nget\r\n"),
    ];

    for test in tests {
        let store = RwLock::new(Store::new());
        let response = execute_command(test.1.as_bytes().to_vec(), &store);
        assert_eq!(
            String::from_utf8_lossy(&response[..]),
            format!("-ERR wrong number of arguments for '{}' command\r\n", test.0)
        );
    }
}

#[test]
fn end_to_end_ping_upper_case() {
    let store = RwLock::new(Store::new());
    let response = execute_command(b"*1\r\n$4\r\nPING\r\n".to_vec(), &store);
    assert_eq!(response, b"+PONG\r\n".to_vec());
}

#[test]
fn end_to_end_echo_upper_case() {
    let store = RwLock::new(Store::new());
    let response = execute_command(b"*2\r\n$4\r\nECHO\r\n$5\r\nhello\r\n".to_vec(), &store);
    assert_eq!(response, b"$5\r\nhello\r\n".to_vec());
}

#[test]
fn end_to_end_set_then_get() {
    let store = RwLock::new(Store::new());
    let response = execute_command(b"*3\r\n$3\r\nSET\r\n$3\r\nfoo\r\n$3\r\nbar\r\n".to_vec(), &store);
    assert_eq!(response, b"+OK\r\n".to_vec());
    let response = execute_command(b"*2\r\n$3\r\nGET\r\n$3\r\nfoo\r\n".to_vec(), &store);
    assert_eq!(response, b"$3\r\nbar\r\n".to_vec());
}

#[test]
fn end_to_end_get_missing() {
    let store = RwLock::new(Store::new());
    let response = execute_command(b"*2\r\n$3\r\nGET\r\n$7\r\nmissing\r\n".to_vec(), &store);
    assert_eq!(response, b"$-1\r\n".to_vec());
}

#[test]
fn end_to_end_get_without_key() {
    let store = RwLock::new(Store::new());
    let response = execute_command(b"*1\r\n$3\r\nGET\r\n".to_vec(), &store);
    assert_eq!(response, b"-ERR wrong number of arguments for 'get' command\r\n".to_vec());
}

#[test]
fn empty_request_and_unknown_command() {
    let store = RwLock::new(Store::new());
    let response = execute_command(b"*0\r\n".to_vec(), &store);
    assert_eq!(response, b"-ERR command is not provided\r\n".to_vec());
    let response = execute_command(b"*1\r\n$4\r\nincr\r\n".to_vec(), &store);
    assert_eq!(response, b"-ERR unsupported command\r\n".to_vec());
}

#[test]
fn plan_follows_name_and_arity() {
    assert_eq!(plan_command("ping", 1), Plan::Ping);
    assert_eq!(plan_command("echo", 1), Plan::EchoArity);
    assert_eq!(plan_command("echo", 2), Plan::Echo);
    assert_eq!(plan_command("set", 2), Plan::SetArity);
    assert_eq!(plan_command("set", 3), Plan::SetValue);
    assert_eq!(plan_command("get", 1), Plan::GetArity);
    assert_eq!(plan_command("get", 2), Plan::GetValue);
    assert_eq!(plan_command("PING", 1), Plan::Unsupported);
}

#[test]
fn replies_for_store_outcomes() {
    assert_eq!(set_reply(Ok(None)), b"+OK\r\n".to_vec());
    assert_eq!(set_reply(Err(())), b"-ERR internal server error occurred\r\n".to_vec());
    assert_eq!(get_reply(Ok(Some("héllo".to_string()))), "$6\r\nhéllo\r\n".as_bytes().to_vec());
    assert_eq!(get_reply(Ok(None)), b"$-1\r\n".to_vec());
    assert_eq!(get_reply(Err(())), b"-ERR internal server error occurred\r\n".to_vec());
}

#[test]
fn echo_keeps_binary_argument() {
    let store = RwLock::new(Store::new());
    let response = execute_command(b"*2\r\n$4\r\necho\r\n$2\r\n\xff\x00\r\n".to_vec(), &store);
    assert_eq!(response, b"$2\r\n\xff\x00\r\n".to_vec());
}

#[test]
fn last_of_many_writes_is_read_whole() {
    let store = RwLock::new(Store::new());
    let values = ["alpha", "bravo-bravo", "c", "delta-delta-delta"];
    for v in values {
        let request = format!("*3\r\n$3\r\nset\r\n$3\r\nkey\r\n${}\r\n{}\r\n", v.len(), v);
        assert_eq!(execute_command(request.into_bytes(), &store), b"+OK\r\n".to_vec());
    }
    let response = execute_command(b"*2\r\n$3\r\nget\r\n$3\r\nkey\r\n".to_vec(), &store);
    assert_eq!(response, b"$17\r\ndelta-delta-delta\r\n".to_vec());
}

#[test]
fn store_steps_set_then_get() {
    let mut store = Store::new();
    let set = RESPDecoder::new(b"*3\r\n$3\r\nset\r\n$3\r\nfoo\r\n$3\r\nbar\r\n".to_vec()).next_resp().unwrap();
    assert_eq!(set_in_store(&mut store, set.array()), b"+OK\r\n".to_vec());
    let get = RESPDecoder::new(b"*2\r\n$3\r\nget\r\n$3\r\nfoo\r\n".to_vec()).next_resp().unwrap();
    assert_eq!(get_from_store(&store, get.array()), b"$3\r\nbar\r\n".to_vec());
    let missing = RESPDecoder::new(b"*2\r\n$3\r\nget\r\n$3\r\nbar\r\n".to_vec()).next_resp().unwrap();
    assert_eq!(get_from_store(&store, missing.array()), b"$-1\r\n".to_vec());
}
