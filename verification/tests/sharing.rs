use container_mirror::docker::Container;
use container_mirror::snapshot::{Snapshot, Workload};
use std::sync::{Arc, Mutex};

fn listing(generation: usize) -> Vec<Workload> {
    (0..8)
        .map(|i| Workload {
            container: Container {
                id: format!("{}", i),
                name: format!("/{}", generation),
                image: "img".to_string(),
                command: "cmd".to_string(),
                status: "Up".to_string(),
            },
            log_tail: vec![],
        })
        .collect()
}

#[test]
fn a_reader_sees_one_listing_whole() {
    let shared = Arc::new(Mutex::new(Snapshot::new()));
    let runtime = tokio::runtime::Builder::new_multi_thread().worker_threads(2).build().unwrap();
    runtime.block_on(async {
        let writer = {
            let shared = Arc::clone(&shared);
            tokio::spawn(async move {
                for generation in 0..200 {
                    shared.lock().unwrap().publish(listing(generation));
                    tokio::task::yield_now().await;
                }
            })
        };
        let reader = {
            let shared = Arc::clone(&shared);
            tokio::spawn(async move {
                for _ in 0..200 {
                    let seen = shared.lock().unwrap().workloads();
                    if let Some(first) = seen.first() {
                        assert_eq!(seen.len(), 8);
                        assert!(seen.iter().all(|w| w.container.name == first.container.name));
                    }
                    tokio::task::yield_now().await;
                }
            })
        };
        writer.await.unwrap();
        reader.await.unwrap();
    });
    assert_eq!(shared.lock().unwrap().workloads(), listing(199));
    assert_eq!(shared.lock().unwrap().pending_removals(), Vec::<String>::new());
}
