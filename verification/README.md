# rc-car

Control logic of a four-motor RC car driven by an ESP32-S3 through two
TB6612FNG motor drivers, verified with Verus.

- `src/app/direction.rs`, `src/app/command.rs`: motor directions, pin levels,
  per-motor PWM duties and whole-car commands (drive, steer, turn, spin, stop).
- `src/app/controller.rs`: the WebSocket text protocol (`"S"`, `"<VERB>:<SPEED>"`)
  and its mapping to car commands.
- `src/app/text.rs`: trimming, splitting, decimal parsing and rendering on
  character sequences, as the protocol and the status messages use them.
- `src/api/web.rs`: what the HTTP and WebSocket handlers decide: the camera
  status URL and reply, and the command each WebSocket event sets.
- `app/`: the firmware around the library (Wi-Fi, GPIO/LEDC drivers, the HTTP
  server and the 50 ms control loop) for the `espidf` target, and a host
  simulation that prints the motor commands.
