# mesa

Mesa runs the drivers of industrial devices, keeps the devices, endpoints and tasks that they are
configured with, and shows the latest values of their points.

The library in `src/` holds what Mesa decides. Each function states in its contract what it gives
and what it changes, and Verus proves that it does. The main parts are:

- `types`, `schema`, `resource`, `capability`, `descriptor`, `profile`, `event`, `report`: what
  drivers describe and deliver, and when it makes sense;
- `pb`, `protocol`, `event_protocol`, `wire`: the messages that are exchanged with drivers;
- `manifest`, `process`, `session`, `endpoint`, `ingress`, `source`, `snapshot`, `probe`,
  `temp_op`, `manager`: how drivers are found, started, configured, listened to and given up;
- `store`, `points`, `audit`, `migration`, `secrets`: what is kept, and how databases of any age
  are brought up to date;
- `api`, `devices`, `endpoints`, `connection`, `tasks`, `gate`, `control`, `queries`, `bootstrap`,
  `certificates`, `startup`: the answers to requests, and what happens when the program starts;
- `json`, `outline`, `render`, `text`, `float`, `pattern`, `table`, `ids`: values, texts and tables that the
  others are made of.

Public proof functions state what holds of several operations together, such as that the id of a
point never changes, that a device which could not be started leaves nothing behind, or that no
secret is shown.

`app/` is the daemon around the library: arguments, files, the database, processes, sockets, HTTP
and the reading of JSON and TOML into the types of the library. Events are not stored: the daemon
has no event store.

`tests/` runs the library.
