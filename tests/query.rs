use frustum_query::{Frustum, FrustumQuery, FrustumQueryObject};
use time::PreciseTime;

fn get_test_objects(n: usize) -> Vec<FrustumQueryObject> {
    let mut objects: Vec<FrustumQueryObject> = Vec::with_capacity(n * 4);
    let copy = vec![
        FrustumQueryObject { x: 1, y: 1, z: 1, r: 1 },
        FrustumQueryObject { x: 2, y: 3, z: 4, r: 2 },
        FrustumQueryObject { x: 3, y: 4, z: 5, r: 3 },
        FrustumQueryObject { x: 4, y: 5, z: 6, r: 7 },
    ];
    for _ in 0..n {
        objects.append(&mut copy.clone());
    }
    println!("Using {} objects", objects.len());
    objects
}

fn sequence_transform() -> [i64; 16] {
    [1, 2, 3, 4, 5, 6, 7, 8, 9, 10, 11, 12, 13, 14, 15, 16]
}

#[test]
fn simple() {
    let mvp: [i64; 16] = sequence_transform();
    let frustum: Frustum = Frustum::from_modelview_projection(&mvp);
    let n: usize = 15000;
    let objects: Vec<FrustumQueryObject> = get_test_objects(n);
    let num_objects = objects.len();
    let mut query_result1: Vec<bool> = Vec::with_capacity(num_objects);
    let mut query_result2: Vec<bool> = Vec::with_capacity(num_objects);
    for _ in 0..num_objects {
        query_result1.push(true);
        query_result2.push(true);
    }
    let frustum_query: FrustumQuery = FrustumQuery::new(objects);
    frustum_query.execute(&frustum, &mut query_result1);
    assert!(query_result1 == query_result2);
}

#[test]
fn multithreaded_compairison_rayon() {
    let mvp: [i64; 16] = sequence_transform();
    let frustum: Frustum = Frustum::from_modelview_projection(&mvp);
    let n: usize = 15000;
    let objects: Vec<FrustumQueryObject> = get_test_objects(n);
    let num_objects = objects.len();
    let mut query_result1: Vec<bool> = Vec::with_capacity(num_objects);
    let mut query_result2: Vec<bool> = Vec::with_capacity(num_objects);
    for _ in 0..num_objects {
        query_result1.push(true);
        query_result2.push(true);
    }

    let start = PreciseTime::now();
    let frustum_query: FrustumQuery = FrustumQuery::new(objects.clone());
    frustum_query.execute(&frustum, &mut query_result1);
    let end = PreciseTime::now();
    let single_thread_time = start.to(end);

    let start = PreciseTime::now();
    frustum_query.execute_parallel_rayon(&frustum, &mut query_result2);
    let end = PreciseTime::now();
    let multi_thread_time = start.to(end);

    println!("Single-threaded time:\t{}", single_thread_time);
    println!("Multi-threaded time:\t{}", multi_thread_time);
    assert!(query_result1 == query_result2);
}

fn mixed_objects() -> Vec<FrustumQueryObject> {
    vec![
        FrustumQueryObject { x: 0, y: 0, z: 0, r: 0 },
        FrustumQueryObject { x: 100, y: 100, z: 100, r: 0 },
        FrustumQueryObject { x: 2, y: 0, z: 0, r: 2 },
        FrustumQueryObject { x: 2, y: 0, z: 0, r: 1 },
        FrustumQueryObject { x: 0, y: -3, z: 0, r: 3 },
        FrustumQueryObject { x: 1, y: 0, z: 0, r: 0 },
    ]
}

#[test]
fn parallel_matches_sequential_and_keeps_tail() {
    let frustum = Frustum::from_modelview_projection(&identity());
    let query = FrustumQuery::new(mixed_objects());
    let mut sequential = vec![true; 8];
    sequential[6] = false;
    let mut parallel = sequential.clone();
    query.execute(&frustum, &mut sequential);
    query.execute_parallel_rayon(&frustum, &mut parallel);
    assert_eq!(sequential, vec![true, false, true, false, true, false, false, true]);
    assert_eq!(sequential, parallel);
}

#[test]
fn empty_batch_leaves_buffer_alone() {
    let frustum = Frustum::from_modelview_projection(&identity());
    let query = FrustumQuery::new(Vec::new());
    let mut result = vec![false, true];
    query.execute(&frustum, &mut result);
    assert_eq!(result, vec![false, true]);
    query.execute_parallel_rayon(&frustum, &mut result);
    assert_eq!(result, vec![false, true]);
}

fn identity() -> [i64; 16] {
    [1, 0, 0, 0, 0, 1, 0, 0, 0, 0, 1, 0, 0, 0, 0, 1]
}
