# uattestation

An attestation service front end: requests are authenticated with bearer
tokens, authorized with casbin, and tokens are issued on request.

- `src/` is the library, written in Verus and proved against its contracts:
  - `auth`: screening requests (preflight, public routes, bearer tokens) and
    deciding token holders by their claims and login session;
  - `token`: token claims, their issue time and expiry, the session verdict;
  - `config`, `keypath`: the settings tree, path keys such as `etcd.bind[0]`
    and the typed getters;
  - `user`: user records, store keys and the outcomes of store requests;
  - `server`: start-up decisions (log level, bind address, etcd endpoints,
    preset access rules);
  - `text`, `clock`: string helpers and the system clock.
- `app/` is the server around it: actix-web handlers and middleware, the
  casbin enforcer, etcd access, JSON forms of the records, and loading the
  settings files.
- `tests/` exercises the library.
