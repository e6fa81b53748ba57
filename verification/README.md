# webgpu_worker

The verified core of a page that renders a WebGPU scene inside a web worker
and drives it from a Leptos UI on the main thread.

`src/` is the library, verified with Verus:

- `protocol` — the page-to-worker messages and the adapter report;
- `worker` — what the worker does about each message (`plan_message`);
- `gesture` — the pointer gesture: drags that orbit the camera, and clicks;
- `colour` — the channel bytes of a `#rrggbb` colour text;
- `thousands` — decimal text of integers, plain and grouped by thousands;
- `text` — the labels and reports the page shows.

`app/` is the browser program around it: the Leptos page, the bridge that
posts messages to the worker, the worker's message pump and frame loop, and
the serde forms of the messages. `tests/` runs the library on concrete values.
