use pgdog::backend::pool::ban::Reason;
use pgdog::backend::pool::cluster::{Selection, ShardedTable, Target};
use pgdog::backend::pool::pool_impl::Checkout;
use pgdog::backend::pool::shard::Role;
use pgdog::backend::pool::{Address, Ban, Cluster, Config, Error, Pool, Replicas, Shard};
use pgdog::backend::{Error as BackendError, Server};
use pgdog::frontend::router::route::ShardSelector;
use pgdog::frontend::router::Route;
use pgdog::net::messages::{BackendKeyData, Message, ReadyForQuery, ToBytes};
use pgdog::net::Parameters;

fn addr(port: u16) -> Address {
    Address {
        host: "127.0.0.1".to_string(),
        port,
        database_name: "pgdog".to_string(),
        user: "pgdog".to_string(),
    }
}

fn config(min: usize, max: usize) -> Config {
    Config {
        min,
        max,
        checkout_timeout: 1_000,
        idle_timeout: 30,
        connect_timeout: 1_000,
        max_age: 1_000,
    }
}

fn key(pid: i32) -> BackendKeyData {
    BackendKeyData { pid, secret: pid }
}

fn server(pid: i32, now: u64) -> Server {
    Server::new(addr(5432), key(pid), Parameters::default(), now)
}

fn ready(status: char) -> Message {
    Message::new(ReadyForQuery { status }.to_bytes().unwrap())
}

fn pool(min: usize, max: usize) -> Pool {
    Pool::new(addr(5432), config(min, max))
}

#[test]
fn config_defaults() {
    let c = Config::default();
    assert_eq!(c.min, 1);
    assert_eq!(c.max, 10);
    assert_eq!(c.checkout_timeout(), 5_000);
    assert_eq!(c.idle_timeout(), 60_000);
    assert_eq!(c.connect_timeout(), 5_000);
    assert_eq!(c.max_age(), 24 * 3600 * 1000);
    assert!(c.is_valid());
    assert!(!config(2, 1).is_valid());
    assert!(!config(0, 0).is_valid());
}

#[test]
fn config_timeouts_are_their_own() {
    let c = Config {
        min: 1,
        max: 2,
        checkout_timeout: 3,
        idle_timeout: 4,
        connect_timeout: 5,
        max_age: 6,
    };
    assert_eq!(c.checkout_timeout(), 3);
    assert_eq!(c.idle_timeout(), 4);
    assert_eq!(c.connect_timeout(), 5);
    assert_eq!(c.max_age(), 6);
}

#[test]
fn checkout_opens_then_reuses() {
    let mut p = pool(0, 2);
    assert!(matches!(p.checkout(key(100), 0), Ok(Checkout::Connect)));
    assert_eq!(p.checked_out(), 1);
    let released = p.release(server(1, 0), 5);
    assert!(released.discard.is_none());
    assert!(released.wake.is_none());
    assert_eq!(p.idle(), 1);
    assert_eq!(p.checked_out(), 0);
    match p.checkout(key(100), 6) {
        Ok(Checkout::Server(s)) => {
            assert_eq!(*s.id(), key(1));
            assert_eq!(s.idle_for(6), 1);
        }
        other => panic!("{:?}", other),
    }
    assert_eq!(p.idle(), 0);
    assert_eq!(p.checked_out(), 1);
    assert!(p.is_valid());
}

#[test]
fn checkout_takes_the_connection_that_came_back_last() {
    let mut p = pool(0, 2);
    assert!(matches!(p.checkout(key(100), 0), Ok(Checkout::Connect)));
    assert!(matches!(p.checkout(key(101), 0), Ok(Checkout::Connect)));
    p.release(server(1, 0), 1);
    p.release(server(2, 0), 2);
    match p.checkout(key(100), 3) {
        Ok(Checkout::Server(s)) => assert_eq!(*s.id(), key(2)),
        other => panic!("{:?}", other),
    }
    match p.checkout(key(100), 3) {
        Ok(Checkout::Server(s)) => assert_eq!(*s.id(), key(1)),
        other => panic!("{:?}", other),
    }
}

#[test]
fn pool_never_holds_more_than_max() {
    let mut p = pool(0, 1);
    assert!(matches!(p.checkout(key(100), 0), Ok(Checkout::Connect)));
    assert!(matches!(p.checkout(key(101), 0), Ok(Checkout::Wait)));
    assert!(matches!(p.checkout(key(102), 0), Ok(Checkout::Wait)));
    assert_eq!(p.waiting(), 2);
    assert!(p.idle() + p.checked_out() <= 1);
    let released = p.release(server(1, 0), 1);
    assert_eq!(released.wake, Some(key(101)));
    assert_eq!(p.waiting(), 1);
    assert!(p.idle() + p.checked_out() <= 1);
    // A connection that the pool did not hand out finds no room.
    let extra = p.release(server(9, 0), 1);
    assert!(extra.discard.is_some());
    assert!(p.idle() + p.checked_out() <= 1);
    assert!(p.put(server(10, 0), 1).is_some());
    assert!(p.is_valid());
}

#[test]
fn broken_connection_never_goes_back_to_idle() {
    let mut p = pool(0, 2);
    assert!(matches!(p.checkout(key(100), 0), Ok(Checkout::Connect)));
    let mut s = server(1, 0);
    assert!(s.send(Err(BackendError::Io)).is_err());
    assert!(s.error());
    let released = p.release(s, 1);
    assert_eq!(released.discard.map(|s| *s.id()), Some(key(1)));
    assert_eq!(p.idle(), 0);
    assert_eq!(p.checked_out(), 0);
}

#[test]
fn connection_in_a_transaction_or_a_request_is_not_kept() {
    let mut p = pool(0, 2);
    assert!(matches!(p.checkout(key(100), 0), Ok(Checkout::Connect)));
    let mut s = server(1, 0);
    s.send(Ok(5)).unwrap();
    assert!(p.release(s, 1).discard.is_some());
    assert!(matches!(p.checkout(key(100), 0), Ok(Checkout::Connect)));
    let mut s = server(2, 0);
    s.send(Ok(5)).unwrap();
    s.read(Ok(ready('T')), 1).unwrap();
    assert!(p.release(s, 1).discard.is_some());
    assert_eq!(p.idle(), 0);
}

#[test]
fn connection_past_its_age_is_not_kept() {
    let mut p = pool(0, 2);
    assert!(matches!(p.checkout(key(100), 0), Ok(Checkout::Connect)));
    assert!(p.release(server(1, 0), 1_000).discard.is_none());
    assert!(matches!(p.checkout(key(100), 0), Ok(Checkout::Server(_))));
    assert!(p.release(server(1, 0), 1_001).discard.is_some());
}

#[test]
fn release_says_when_the_pool_is_below_its_minimum() {
    let mut p = pool(1, 2);
    assert!(matches!(p.checkout(key(100), 0), Ok(Checkout::Connect)));
    let mut s = server(1, 0);
    assert!(s.flush(Err(BackendError::Io)).is_err());
    assert!(p.release(s, 1).refill);
    assert!(matches!(p.checkout(key(100), 0), Ok(Checkout::Connect)));
    assert!(!p.release(server(2, 0), 1).refill);
}

#[test]
fn banned_pool_gives_no_connection() {
    let mut p = pool(0, 2);
    p.ban(Reason::HealthCheck, 100, 50);
    assert!(p.banned(100));
    assert!(p.banned(149));
    assert!(!p.banned(150));
    assert!(matches!(p.checkout(key(1), 120), Err(Error::Banned)));
    assert_eq!(p.checked_out(), 0);
    assert!(matches!(p.checkout(key(1), 150), Ok(Checkout::Connect)));
    p.ban(Reason::Manual, 200, 1_000);
    p.unban();
    assert!(!p.banned(201));
    assert_eq!(Error::Banned.code(), "57P03");
}

#[test]
fn ban_expires_after_its_ttl() {
    let ban = Ban {
        reason: Reason::ProtocolError,
        banned_at: 10,
        ttl: 5,
    };
    assert!(!ban.expired(14));
    assert!(ban.expired(15));
    assert!(!ban.expired(0));
}

#[test]
fn waiter_that_times_out_leaves_the_queue() {
    let mut p = pool(0, 1);
    assert!(matches!(p.checkout(key(100), 0), Ok(Checkout::Connect)));
    assert!(matches!(p.checkout(key(101), 0), Ok(Checkout::Wait)));
    assert!(matches!(p.checkout(key(102), 0), Ok(Checkout::Wait)));
    assert_eq!(p.timeout(key(101)), Error::CheckoutTimeout);
    assert_eq!(p.waiting(), 1);
    assert_eq!(p.release(server(1, 0), 1).wake, Some(key(102)));
}

#[test]
fn abandon_gives_the_room_back() {
    let mut p = pool(0, 1);
    assert!(matches!(p.checkout(key(100), 0), Ok(Checkout::Connect)));
    assert!(matches!(p.checkout(key(101), 0), Ok(Checkout::Wait)));
    assert_eq!(p.abandon(), Some(key(101)));
    assert_eq!(p.checked_out(), 0);
    assert_eq!(p.abandon(), None);
}

#[test]
fn maintain_closes_idle_connections_down_to_the_minimum() {
    let mut p = pool(1, 3);
    assert!(p.put(server(1, 0), 0).is_none());
    assert!(p.put(server(2, 0), 0).is_none());
    assert!(p.put(server(3, 0), 0).is_none());
    let m = p.maintain(31);
    let closed: Vec<BackendKeyData> = m.close.iter().map(|s| *s.id()).collect();
    assert_eq!(closed, vec![key(1), key(2)]);
    assert_eq!(m.open, 0);
    assert_eq!(p.idle(), 1);
}

#[test]
fn maintain_closes_old_connections_and_asks_for_new_ones() {
    let mut p = pool(2, 3);
    assert!(p.put(server(1, 0), 0).is_none());
    assert!(p.put(server(2, 990), 990).is_none());
    let m = p.maintain(1_001);
    let closed: Vec<BackendKeyData> = m.close.iter().map(|s| *s.id()).collect();
    assert_eq!(closed, vec![key(1)]);
    assert_eq!(m.open, 1);
    assert_eq!(p.idle(), 1);
}

#[test]
fn maintain_leaves_fresh_connections_alone() {
    let mut p = pool(0, 3);
    assert!(p.put(server(1, 0), 0).is_none());
    let m = p.maintain(30);
    assert_eq!(m.close.len(), 0);
    assert_eq!(m.open, 0);
    assert_eq!(p.idle(), 1);
}

#[test]
fn healthcheck_takes_the_first_connection_that_is_due() {
    let mut p = pool(0, 3);
    let mut checked = server(1, 0);
    checked.healthcheck(Ok(()), 90).unwrap();
    assert!(p.put(checked, 90).is_none());
    assert!(p.put(server(2, 0), 90).is_none());
    let due = p.healthcheck(100, 50).unwrap();
    assert_eq!(*due.id(), key(2));
    assert_eq!(p.checked_out(), 1);
    assert!(p.healthcheck(100, 50).is_none());
    assert_eq!(*p.healthcheck(200, 50).unwrap().id(), key(1));
}

fn shard(replicas: usize, primary: bool, banned_replicas: &[usize]) -> Shard {
    let mut pools = vec![];
    for i in 0..replicas {
        let mut p = Pool::new(addr(6000 + i as u16), config(0, 2));
        if banned_replicas.contains(&i) {
            p.ban(Reason::HealthCheck, 0, 1_000);
        }
        pools.push(p);
    }
    let primary = if primary {
        Some(Pool::new(addr(5432), config(0, 2)))
    } else {
        None
    };
    Shard::new(primary, Replicas::new(pools))
}

fn cluster(shards: Vec<Shard>, read_only: bool, write_only: bool) -> Cluster {
    Cluster::new(
        shards,
        read_only,
        write_only,
        vec![ShardedTable {
            name: Some("users".to_string()),
            column: "id".to_string(),
        }],
    )
}

fn one(shard: usize, role: Role) -> Result<Selection, Error> {
    Ok(Selection::One(Target { shard, role }))
}

#[test]
fn writes_go_to_the_primary() {
    let mut c = cluster(vec![shard(2, true, &[]), shard(2, true, &[])], false, false);
    let route = Route::writing(ShardSelector::One(1));
    assert_eq!(c.select(&route, 10), one(1, Role::Primary));
    assert_eq!(c.select(&Route::unknown(), 10), one(0, Role::Primary));
}

#[test]
fn reads_go_round_the_replicas() {
    let mut c = cluster(vec![shard(3, true, &[])], false, false);
    let route = Route::reading(ShardSelector::One(0));
    assert_eq!(c.select(&route, 10), one(0, Role::Replica(0)));
    assert_eq!(c.select(&route, 10), one(0, Role::Replica(1)));
    assert_eq!(c.select(&route, 10), one(0, Role::Replica(2)));
    assert_eq!(c.select(&route, 10), one(0, Role::Replica(0)));
}

#[test]
fn reads_skip_banned_replicas() {
    let mut c = cluster(vec![shard(3, true, &[0, 2])], false, false);
    let route = Route::reading(ShardSelector::One(0));
    assert_eq!(c.select(&route, 10), one(0, Role::Replica(1)));
    assert_eq!(c.select(&route, 10), one(0, Role::Replica(1)));
    // The bans are over.
    assert_eq!(c.select(&route, 1_000), one(0, Role::Replica(2)));
}

#[test]
fn reads_fall_back_to_the_primary() {
    let mut c = cluster(
        vec![shard(2, true, &[0, 1]), shard(0, true, &[]), shard(1, false, &[0])],
        false,
        false,
    );
    assert_eq!(
        c.select(&Route::reading(ShardSelector::One(0)), 10),
        one(0, Role::Primary)
    );
    assert_eq!(
        c.select(&Route::reading(ShardSelector::One(1)), 10),
        one(1, Role::Primary)
    );
    assert_eq!(
        c.select(&Route::reading(ShardSelector::One(2)), 10),
        Err(Error::NoPool)
    );
    assert_eq!(
        c.select(&Route::writing(ShardSelector::One(2)), 10),
        Err(Error::NoPool)
    );
    assert_eq!(
        c.select(&Route::writing(ShardSelector::One(7)), 10),
        Err(Error::NoPool)
    );
}

#[test]
fn banned_primary_takes_no_writes() {
    let mut primary = Pool::new(addr(5432), config(0, 2));
    primary.ban(Reason::HealthCheck, 0, 100);
    let replica = Pool::new(addr(6000), config(0, 2));
    let s = Shard::new(Some(primary), Replicas::new(vec![replica]));
    let mut c = cluster(vec![s], false, false);
    assert_eq!(
        c.select(&Route::writing(ShardSelector::One(0)), 10),
        Err(Error::Banned)
    );
    assert_eq!(
        c.select(&Route::reading(ShardSelector::One(0)), 10),
        one(0, Role::Replica(0))
    );
    assert_eq!(
        c.select(&Route::writing(ShardSelector::One(0)), 100),
        one(0, Role::Primary)
    );
}

#[test]
fn any_shard_takes_turns() {
    let mut c = cluster(vec![shard(0, true, &[]), shard(0, true, &[])], false, false);
    let route = Route::reading(ShardSelector::Any);
    assert_eq!(c.select(&route, 10), one(0, Role::Primary));
    assert_eq!(c.select(&route, 10), one(1, Role::Primary));
    assert_eq!(c.select(&route, 10), one(0, Role::Primary));
    let mut empty = cluster(vec![], false, false);
    assert_eq!(empty.select(&route, 10), Err(Error::NoPool));
}

#[test]
fn all_shards_is_left_to_the_caller() {
    let mut c = cluster(vec![shard(0, true, &[]), shard(0, true, &[])], false, false);
    assert_eq!(
        c.select(&Route::select(None, &[]), 10),
        Ok(Selection::Fanout)
    );
}

#[test]
fn cluster_flags_force_the_affinity() {
    let mut c = cluster(vec![shard(1, true, &[])], true, false);
    assert_eq!(
        c.select(&Route::writing(ShardSelector::One(0)), 10),
        one(0, Role::Replica(0))
    );
    let mut c = cluster(vec![shard(1, true, &[])], false, true);
    assert_eq!(
        c.select(&Route::reading(ShardSelector::One(0)), 10),
        one(0, Role::Primary)
    );
    assert!(c.write_only());
    assert!(!c.read_only());
    assert_eq!(c.shards().len(), 1);
    assert_eq!(c.shaded_tables().len(), 1);
}

#[test]
fn cluster_hands_out_and_takes_back() {
    let mut c = cluster(vec![shard(1, true, &[])], false, false);
    let primary = Target {
        shard: 0,
        role: Role::Primary,
    };
    let replica = Target {
        shard: 0,
        role: Role::Replica(0),
    };
    assert!(matches!(
        c.pool_mut(primary).unwrap().checkout(key(1), 0),
        Ok(Checkout::Connect)
    ));
    assert!(matches!(
        c.pool_mut(replica).unwrap().checkout(key(2), 0),
        Ok(Checkout::Connect)
    ));
    assert!(c.pool_mut(primary).unwrap().release(server(1, 0), 1).discard.is_none());
    assert!(c.pool_mut(replica).unwrap().release(server(2, 0), 1).discard.is_none());
    match c.pool_mut(replica).unwrap().checkout(key(2), 2) {
        Ok(Checkout::Server(s)) => assert_eq!(*s.id(), key(2)),
        other => panic!("{:?}", other),
    }
    assert_eq!(c.shards()[0].replicas().pool(0).unwrap().checked_out(), 1);
    assert_eq!(c.shards()[0].primary().unwrap().idle(), 1);
    let nowhere = Target {
        shard: 3,
        role: Role::Primary,
    };
    assert!(c.pool_mut(nowhere).is_none());
    let no_replica = Target {
        shard: 0,
        role: Role::Replica(5),
    };
    assert!(c.pool_mut(no_replica).is_none());
    c.pool_mut(primary).unwrap().ban(Reason::Manual, 0, 10);
    assert_eq!(
        c.select(&Route::writing(ShardSelector::One(0)), 5),
        Err(Error::Banned)
    );
    assert_eq!(c.shards()[0].replicas().len(), 1);
    assert!(!c.shards()[0].replicas().is_empty());
}

#[test]
fn cluster_and_its_parts_are_valid() {
    let c = cluster(vec![shard(2, true, &[1]), shard(0, false, &[])], false, false);
    assert!(c.is_valid());
    assert!(c.shards()[0].is_valid());
    assert!(c.shards()[0].replicas().is_valid());
    assert!(c.shards()[0].replicas().pool(1).unwrap().is_valid());
    assert!(c.shards()[0].replicas().pool(1).unwrap().banned(5));
    assert!(c.shards()[0].replicas().pool(2).is_none());
    assert_eq!(c.shards()[0].primary().unwrap().config().max, 2);
    assert_eq!(c.shards()[0].primary().unwrap().addr().port, 5432);
}
