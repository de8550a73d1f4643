use ferrumview::worker::{
    available_message, connecting_message, ffmpeg_args, retry_delay, retry_message, Action, Cause,
    Event, Phase, Worker, IDLE_LIMIT, STABLE_AFTER, STALL_LIMIT,
};

#[test]
fn delays_double_from_three_to_thirty() {
    let delays: Vec<u64> = (0..7).map(retry_delay).collect();
    assert_eq!(delays, [3, 6, 12, 24, 30, 30, 30]);
    assert_eq!(retry_delay(u32::MAX), 30);
}

fn woken() -> Worker {
    let mut worker = Worker::new();
    assert_eq!(worker.step(Event::Woke { idle: 0 }), Some(Action::Connect));
    worker
}

fn watching() -> Worker {
    let mut worker = woken();
    assert_eq!(
        worker.step(Event::Connected),
        Some(Action::Poll { announce: false })
    );
    worker
}

fn look(worker: &mut Worker, found: bool, age: Option<u128>, running: u128) -> Action {
    assert_eq!(
        worker.step(Event::Ticked { idle: IDLE_LIMIT }),
        Some(Action::CheckProcess)
    );
    assert_eq!(
        worker.step(Event::ProcessChecked { exited: false }),
        Some(Action::CheckPlaylist)
    );
    worker
        .step(Event::PlaylistChecked {
            found,
            age,
            running,
        })
        .unwrap()
}

#[test]
fn refused_connections_are_tried_again() {
    let mut worker = Worker::new();
    for delay in [3, 6, 12, 24, 30, 30] {
        assert_eq!(
            worker.step(Event::Woke { idle: IDLE_LIMIT }),
            Some(Action::Connect)
        );
        assert_eq!(
            worker.step(Event::Failed),
            Some(Action::Retry {
                kill: false,
                cause: Cause::Reported,
                delay
            })
        );
    }
    assert_eq!(worker.failures, 6);
}

#[test]
fn idle_relays_are_shut_down() {
    let mut worker = Worker::new();
    assert_eq!(
        worker.step(Event::Woke {
            idle: IDLE_LIMIT + 1
        }),
        Some(Action::Stop { kill: false })
    );
    assert_eq!(worker.phase, Phase::Stopped);
    assert_eq!(worker.step(Event::Woke { idle: 0 }), None);
    let mut worker = watching();
    assert_eq!(
        worker.step(Event::Ticked {
            idle: IDLE_LIMIT + 1
        }),
        Some(Action::Stop { kill: true })
    );
}

#[test]
fn ended_streams_are_connected_again() {
    let mut worker = watching();
    worker.step(Event::Ticked { idle: 0 });
    assert_eq!(
        worker.step(Event::ProcessChecked { exited: true }),
        Some(Action::Retry {
            kill: false,
            cause: Cause::StreamEnded,
            delay: 3
        })
    );
    assert_eq!(worker.phase, Phase::Waiting);
}

#[test]
fn stalled_streams_are_killed() {
    let mut worker = watching();
    let stalled = Action::Retry {
        kill: true,
        cause: Cause::StreamStalled,
        delay: 3,
    };
    assert_eq!(
        look(&mut worker, false, None, STALL_LIMIT),
        Action::Poll { announce: false }
    );
    assert_eq!(look(&mut worker, false, None, STALL_LIMIT + 1), stalled);
    let mut worker = watching();
    assert_eq!(
        look(&mut worker, true, Some(STALL_LIMIT + 1), 0),
        stalled
    );
}

#[test]
fn stable_streams_make_up_for_failures() {
    let mut worker = watching();
    worker.failures = 3;
    assert_eq!(
        look(&mut worker, true, Some(0), STABLE_AFTER),
        Action::Poll { announce: true }
    );
    assert_eq!(worker.failures, 3);
    look(&mut worker, false, None, STABLE_AFTER + 1);
    assert_eq!(worker.failures, 3);
    look(&mut worker, true, None, STABLE_AFTER + 1);
    assert_eq!(worker.failures, 0);
}

#[test]
fn unexpected_events_change_nothing() {
    let mut worker = woken();
    let before = worker;
    assert_eq!(worker.step(Event::Ticked { idle: 0 }), None);
    assert_eq!(worker, before);
    let mut tired = Worker {
        phase: Phase::Connecting,
        failures: u32::MAX,
    };
    tired.step(Event::Failed);
    assert_eq!(tired.failures, u32::MAX);
}

#[test]
fn messages_name_cause_and_delay() {
    assert_eq!(connecting_message(), "Получение адреса и подключение…");
    assert_eq!(available_message(), "Поток доступен");
    assert_eq!(
        retry_message(Cause::Reported, "Не удалось запустить FFmpeg", 12),
        "Не удалось запустить FFmpeg. Повтор через 12 с."
    );
    assert_eq!(
        retry_message(Cause::StreamEnded, "", 3),
        "DSI прервал поток; получаем свежую ссылку. Повтор через 3 с."
    );
    assert_eq!(
        retry_message(Cause::StreamStalled, "", 30),
        "Видео не поступает; обновляем адрес камеры. Повтор через 30 с."
    );
}

#[test]
fn ffmpeg_reads_the_address_it_is_given() {
    let args = ffmpeg_args("https://a.dsi.ru/x");
    assert_eq!(args.len(), 37);
    assert_eq!(args[0], "-nostdin");
    assert_eq!(args[11], "Origin: https://video.dsi.ru\r\nReferer: https://video.dsi.ru/\r\n");
    assert_eq!(args[12], "-i");
    assert_eq!(args[13], "https://a.dsi.ru/x");
    assert_eq!(args[35], "segment_%d.ts");
    assert_eq!(args[36], "index.m3u8");
}

#[test]
fn the_delay_counts_failures_since_the_last_stable_stream() {
    let mut worker = watching();
    worker.failures = 2;
    assert_eq!(
        look(&mut worker, true, Some(0), STABLE_AFTER + 1),
        Action::Poll { announce: true }
    );
    for delay in [3, 6] {
        worker.step(Event::Ticked { idle: 0 });
        assert_eq!(
            worker.step(Event::ProcessChecked { exited: true }),
            Some(Action::Retry {
                kill: false,
                cause: Cause::StreamEnded,
                delay
            })
        );
        worker.step(Event::Woke { idle: 0 });
        worker.step(Event::Connected);
    }
}
