# taygedo

A daily check-in service for the Taygedo / Laohu game platform, with a
verified core written in Verus.

## Layout

- `src/` — the verified library:
  - `text`, `time` — character-level text helpers and Shanghai-time formats
    (`HH:MM` normalization, whose text order is the time order);
  - `primitives` — the trusted wrappers around the outside crates
    (digests, scrypt, AES, AES-GCM, X25519, Base64, randomness, case
    mapping); `form` — form encoding of one component, written and proved;
  - `models`, `crypto`, `protocol`, `login` — accounts and configuration,
    stored-password encryption and web password hashing, request signing
    (`sign`, `ds`, AES-ECB fields, HMAC/HKDF) and device identities;
  - `session` — the application-layer encryption: handshake, per-direction
    keys and nonces, replay protection and the handshake rate limit;
  - `json`, `api`, `replies` — JSON values as the replies carry them, reply
    parsing (`parse_body`: blank and invalid bodies, code and message), the
    judgement of each reply (accepted, and the fields it must carry) and
    the items the list replies hold;
  - `renew`, `signin`, `runner` — the session renewal (refresh token, then
    the Laohu rebuild, then the password login) and the check-in sequence
    (app check-in, then each role's game check-in, day count and rewards) as
    step functions from state and answer to next state and call, and the
    other decisions of a check-in run (roles from record cards, coin tasks,
    the cloud-time task as a step function `cloud_step`, the run's status
    and failure summary);
  - `service`, `lan`, `scheduler`, `web` — log buffer, login tokens, login
    lock, web credentials, LAN matching, the daily schedule and the web
    layer's checks.
- `tests/` — tests of the library on concrete values.
- `app/` — the executable: HTTP client, file storage, the axum server and
  the scheduler loop. It performs the calls that the library's step
  functions ask for and takes the decisions named above from the library;
  what stays in it is I/O, the loops that drive the steps, log texts, and
  the floating-point amounts (coin and cloud-time figures and the run
  summary text), which the library never reads.

## Configuration

The platform endpoints and client constants are read from the environment
(`TAYGEDO_BASE_URL`, `TAYGEDO_LAOHU_SECRET`, `TAYGEDO_DS_SECRET`, …, see
`app/settings.rs`); the service itself takes `TAYGEDO_DATA_DIR`,
`TAYGEDO_LISTEN`, `TAYGEDO_NO_AUTH`, `TAYGEDO_WEB_PASSWORD` and
`TAYGEDO_ALLOWED_ORIGINS`.
