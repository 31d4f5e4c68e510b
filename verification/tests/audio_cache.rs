use std::sync::Arc;

use baboon::audio::{AudioDone, AudioState, DecodedPcm, PcmCache, PcmKey, PCM_CACHE_BUDGET};

fn pcm(samples: usize) -> Arc<DecodedPcm> {
    Arc::new(DecodedPcm {
        samples: vec![0; samples],
        channels: 1,
        sample_rate: 48_000,
    })
}

#[test]
fn the_pcm_cache_drops_the_least_recently_played_first() {
    let mut cache = PcmCache::<u32> {
        budget: 250,
        ..Default::default()
    };
    cache.insert(1, pcm(50)); // 100 bytes each
    cache.insert(2, pcm(50));
    assert!(cache.get(&1).is_some(), "replaying 1 makes 2 the oldest");
    cache.insert(3, pcm(50));
    assert!(cache.get(&2).is_none(), "over budget: 2 went");
    assert!(cache.get(&1).is_some() && cache.get(&3).is_some());
    assert_eq!(cache.bytes, 200);
}

#[test]
fn replacing_an_entry_counts_its_bytes_once() {
    let mut cache = PcmCache::<String>::default();
    assert_eq!(cache.budget, PCM_CACHE_BUDGET);
    cache.insert("a".to_owned(), pcm(10));
    cache.insert("a".to_owned(), pcm(30));
    assert_eq!(cache.bytes, 60);
    assert_eq!(cache.entries.len(), 1);
    assert_eq!(cache.get(&"a".to_owned()).unwrap().samples.len(), 30);
    cache.clear();
    assert_eq!(cache.bytes, 0);
    assert!(cache.get(&"a".to_owned()).is_none());
}

#[test]
fn the_newest_entry_stays_even_over_budget() {
    let mut cache = PcmCache::<(usize, usize)> {
        budget: 10,
        ..Default::default()
    };
    cache.insert((0, 1), pcm(2));
    cache.insert((0, 2), pcm(100));
    assert_eq!(cache.entries.len(), 1);
    assert_eq!(cache.bytes, 200);
    assert!(cache.get(&(0, 2)).is_some());
    assert!(cache.get(&(0, 1)).is_none());
}

fn decoded(request: u64, cache: Option<PcmKey>) -> AudioDone {
    AudioDone::Decoded {
        request,
        cache,
        label: "rifle_fire".to_owned(),
        result: Ok(pcm(8)),
    }
}

#[test]
fn a_superseded_decode_is_cached_but_not_played() {
    let mut audio = AudioState {
        play_request: 2,
        ..Default::default()
    };
    audio.running = 1;
    let key = || PcmKey::Bank {
        generation: 0,
        bank: 0,
        sub: 4,
    };
    let played = audio.apply_job(decoded(1, Some(key())));
    assert!(played.is_none(), "request 1 is stale: not played");
    assert_eq!(audio.status, None);
    assert!(audio.cache.get(&(0, 4)).is_some(), "but cached");

    let played = audio.apply_job(decoded(2, None));
    let (_, label) = played.expect("the current request plays");
    assert_eq!(label, "rifle_fire");
    assert_eq!(audio.running, 0);
}

#[test]
fn a_decode_for_reopened_banks_is_not_cached() {
    let mut audio = AudioState {
        banks_generation: 3,
        ..Default::default()
    };
    audio.apply_job(decoded(
        0,
        Some(PcmKey::Bank {
            generation: 2,
            bank: 0,
            sub: 4,
        }),
    ));
    assert!(audio.cache.get(&(0, 4)).is_none());
}

#[test]
fn a_failed_decode_is_reported_only_for_the_current_request() {
    let mut audio = AudioState {
        play_request: 5,
        ..Default::default()
    };
    let failed = |request| AudioDone::Decoded {
        request,
        cache: None,
        label: "x".to_owned(),
        result: Err("bad header".to_owned()),
    };
    assert!(audio.apply_job(failed(4)).is_none());
    assert_eq!(audio.status, None);
    assert!(audio.apply_job(failed(5)).is_none());
    assert_eq!(audio.status.as_deref(), Some("decode failed: bad header"));

    audio.stop();
    assert_eq!(audio.play_request, 6);
    assert_eq!(audio.status.as_deref(), Some("stopped"));
    assert!(audio
        .apply_job(AudioDone::Extracted("3 files written".to_owned()))
        .is_none());
    assert_eq!(audio.status.as_deref(), Some("3 files written"));
}

#[test]
fn an_event_decode_is_cached_under_its_name() {
    let mut audio = AudioState::default();
    audio.apply_job(decoded(
        1,
        Some(PcmKey::Event {
            generation: 0,
            name: "play_rifle".to_owned(),
        }),
    ));
    assert!(audio.event_cache.get(&"play_rifle".to_owned()).is_some());
    assert!(audio.cache.entries.is_empty());
}
