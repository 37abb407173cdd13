use lockstep_client::chan::{NetChan, NetInputState};
use lockstep_client::codec::{Command, CommandEx};
use lockstep_client::message::{NetFinishCause, NetPlayerState};
use std::collections::HashMap;

fn ex(conv: u32, frame: u32, command: Command) -> CommandEx {
    CommandEx { conv, frame, command }
}

#[test]
fn inputs_come_out_in_the_order_they_went_in() {
    let mut chan = NetChan::new();
    chan.send_input(1, &[Command::Aaa(1, 2)], &[9]).unwrap();
    chan.send_input(2, &[], &[]).unwrap();
    chan.send_input(3, &[Command::Bbb(1, 2, 3), Command::Aaa(-1, 0)], &[7, 8])
        .unwrap();

    let mut frame = 0;
    let mut commands = Vec::new();
    let mut hash = Vec::new();
    assert_eq!(
        chan.recv_input(&mut frame, &mut commands, &mut hash),
        NetInputState::NonEmpty
    );
    assert_eq!(frame, 1);
    assert_eq!(commands, vec![Command::Aaa(1, 2)]);
    assert_eq!(hash, vec![9]);

    commands.clear();
    hash.clear();
    assert_eq!(
        chan.recv_input(&mut frame, &mut commands, &mut hash),
        NetInputState::NonEmpty
    );
    assert_eq!(frame, 2);
    assert!(commands.is_empty());
    assert!(hash.is_empty());

    assert_eq!(
        chan.recv_input(&mut frame, &mut commands, &mut hash),
        NetInputState::NonEmpty
    );
    assert_eq!(frame, 3);
    assert_eq!(commands, vec![Command::Bbb(1, 2, 3), Command::Aaa(-1, 0)]);
    assert_eq!(hash, vec![7, 8]);

    assert_eq!(
        chan.recv_input(&mut frame, &mut commands, &mut hash),
        NetInputState::Empty
    );
    assert_eq!(frame, 3);
    assert_eq!(commands.len(), 2);
    assert_eq!(hash.len(), 2);
}

#[test]
fn recv_input_appends_to_what_the_caller_holds() {
    let mut chan = NetChan::new();
    chan.send_input(5, &[Command::Aaa(3, 4)], &[2, 3]).unwrap();
    let mut frame = 99;
    let mut commands = vec![Command::Aaa(1, 2)];
    let mut hash = vec![1];
    assert_eq!(
        chan.recv_input(&mut frame, &mut commands, &mut hash),
        NetInputState::NonEmpty
    );
    assert_eq!(frame, 5);
    assert_eq!(commands, vec![Command::Aaa(1, 2), Command::Aaa(3, 4)]);
    assert_eq!(hash, vec![1, 2, 3]);
}

#[test]
fn reused_inputs_carry_nothing_over() {
    let mut chan = NetChan::new();
    let mut frame = 0;
    let mut commands = Vec::new();
    let mut hash = Vec::new();
    // more rounds than inputs are kept for reuse, with several queued at once
    for round in 0u32..4 {
        for k in 0u32..5 {
            let n = round * 5 + k;
            chan.send_input(n, &[Command::Aaa(n as i32, 0)], &[n as u8, 1]).unwrap();
        }
        for k in 0u32..5 {
            let n = round * 5 + k;
            commands.clear();
            hash.clear();
            assert_eq!(
                chan.recv_input(&mut frame, &mut commands, &mut hash),
                NetInputState::NonEmpty
            );
            assert_eq!(frame, n);
            assert_eq!(commands, vec![Command::Aaa(n as i32, 0)]);
            assert_eq!(hash, vec![n as u8, 1]);
        }
    }
    assert_eq!(
        chan.recv_input(&mut frame, &mut commands, &mut hash),
        NetInputState::Empty
    );
}

#[test]
fn game_over_is_queued_behind_the_inputs() {
    let mut chan = NetChan::new();
    chan.send_input(1, &[], &[]).unwrap();
    chan.game_over().unwrap();
    chan.send_input(2, &[], &[]).unwrap();

    let mut frame = 0;
    let mut commands = Vec::new();
    let mut hash = vec![4];
    assert_eq!(
        chan.recv_input(&mut frame, &mut commands, &mut hash),
        NetInputState::NonEmpty
    );
    assert_eq!(frame, 1);
    assert_eq!(
        chan.recv_input(&mut frame, &mut commands, &mut hash),
        NetInputState::Finish
    );
    assert_eq!(frame, 1);
    assert!(commands.is_empty());
    assert_eq!(hash, vec![4]);
    assert_eq!(
        chan.recv_input(&mut frame, &mut commands, &mut hash),
        NetInputState::NonEmpty
    );
    assert_eq!(frame, 2);
}

#[test]
fn output_accumulates_until_it_is_fetched() {
    let mut chan = NetChan::new();
    chan.send_output_commands(&[ex(1, 1, Command::Aaa(1, 1))]);
    chan.send_output_commands(&[]);
    chan.send_output_commands(&[ex(2, 1, Command::Aaa(2, 2)), ex(1, 2, Command::Bbb(0, 0, 0))]);
    chan.send_output_states(1, NetPlayerState::Waiting);
    chan.send_output_states(2, NetPlayerState::Waiting);
    chan.send_output_states(1, NetPlayerState::Running);

    let mut commands = vec![ex(9, 9, Command::Aaa(9, 9))];
    let mut states = HashMap::new();
    states.insert(77, NetPlayerState::Stopped);
    chan.recv_output(&mut commands, &mut states).unwrap();
    assert_eq!(
        commands,
        vec![
            ex(9, 9, Command::Aaa(9, 9)),
            ex(1, 1, Command::Aaa(1, 1)),
            ex(2, 1, Command::Aaa(2, 2)),
            ex(1, 2, Command::Bbb(0, 0, 0)),
        ]
    );
    assert_eq!(states.len(), 2);
    assert_eq!(states[&1], NetPlayerState::Running);
    assert_eq!(states[&2], NetPlayerState::Waiting);

    // fetched once, gone
    chan.recv_output(&mut commands, &mut states).unwrap();
    assert_eq!(commands.len(), 4);
    assert!(states.is_empty());
}

#[test]
fn a_finished_channel_refuses_the_game() {
    let mut chan = NetChan::new();
    chan.send_input(1, &[], &[]).unwrap();
    chan.send_output_commands(&[ex(1, 1, Command::Aaa(1, 1))]);
    chan.send_output_states(1, NetPlayerState::Running);
    chan.finish(NetFinishCause::InvalidPacket);

    let mut commands = Vec::new();
    let mut states = HashMap::new();
    states.insert(5, NetPlayerState::Waiting);
    for _ in 0..3 {
        assert_eq!(
            chan.send_input(2, &[Command::Aaa(1, 1)], &[1]),
            Err(NetFinishCause::InvalidPacket)
        );
        assert_eq!(
            chan.recv_output(&mut commands, &mut states),
            Err(NetFinishCause::InvalidPacket)
        );
        assert_eq!(chan.game_over(), Err(NetFinishCause::InvalidPacket));
    }
    // nothing was handed over
    assert!(commands.is_empty());
    assert_eq!(states.len(), 1);
    assert_eq!(states[&5], NetPlayerState::Waiting);

    // the worker's side still works, and only what was queued before is there
    let mut frame = 0;
    let mut cmds = Vec::new();
    let mut hash = Vec::new();
    assert_eq!(
        chan.recv_input(&mut frame, &mut cmds, &mut hash),
        NetInputState::NonEmpty
    );
    assert_eq!(frame, 1);
    assert_eq!(
        chan.recv_input(&mut frame, &mut cmds, &mut hash),
        NetInputState::Empty
    );
}

#[test]
fn the_last_cause_counts() {
    let mut chan = NetChan::new();
    chan.finish(NetFinishCause::GameOver);
    assert_eq!(chan.game_over(), Err(NetFinishCause::GameOver));
    chan.finish(NetFinishCause::ServerDefined(12));
    assert_eq!(chan.game_over(), Err(NetFinishCause::ServerDefined(12)));
    assert_eq!(
        chan.send_input(1, &[], &[]),
        Err(NetFinishCause::ServerDefined(12))
    );
}
